//! Character-level text helpers shared by the rule and feed parsers and the
//! alert formatters.
use vstd::prelude::*;

verus! {

broadcast use vstd::string::group_string_axioms;

/// `String::push`: appends one character at the end of the string.
#[verifier::external_body]
pub(crate) fn push_char(s: &mut String, c: char)
    ensures
        final(s)@ == old(s)@.push(c),
{
    s.push(c)
}

/// The characters of `s`, in order.
pub fn chars_of(s: &str) -> (v: Vec<char>)
    ensures
        v@ == s@,
{
    let mut v: Vec<char> = Vec::new();
    for c in it: s.chars()
        invariant
            v@ == it.seq().take(it.index() as int),
    {
        v.push(c);
    }
    v
}

/// A string holding exactly the characters of `v`.
pub fn string_of(v: &Vec<char>) -> (s: String)
    ensures
        s@ == v@,
{
    let mut s = String::new();
    let mut i: usize = 0;
    while i < v.len()
        invariant
            i <= v@.len(),
            s@ == v@.take(i as int),
        decreases v@.len() - i,
    {
        push_char(&mut s, v[i]);
        assert(v@.take(i as int).push(v@[i as int]) =~= v@.take(i + 1));
        i = i + 1;
    }
    assert(v@.take(v@.len() as int) =~= v@);
    s
}

/// The decimal digit character for `d < 10`.
pub open spec fn digit_char(d: nat) -> char {
    (d + 48) as char
}

/// The decimal representation of `n`, without leading zeros.
pub open spec fn decimal(n: nat) -> Seq<char>
    decreases n,
{
    if n < 10 {
        seq![digit_char(n)]
    } else {
        decimal(n / 10).push(digit_char(n % 10))
    }
}

/// Appends the decimal representation of `n` to `s`.
pub fn push_decimal(s: &mut String, n: u64)
    ensures
        final(s)@ == old(s)@ + decimal(n as nat),
    decreases n,
{
    if n >= 10 {
        push_decimal(s, n / 10);
    }
    let d: u8 = (n % 10) as u8;
    let c: char = (d + 48) as char;
    push_char(s, c);
}


/// Unicode `White_Space`, the set that `char::is_whitespace` tests.
pub open spec fn is_whitespace(c: char) -> bool {
    let u = c as u32;
    ||| 0x09 <= u <= 0x0D
    ||| u == 0x20
    ||| u == 0x85
    ||| u == 0xA0
    ||| u == 0x1680
    ||| 0x2000 <= u <= 0x200A
    ||| u == 0x2028
    ||| u == 0x2029
    ||| u == 0x202F
    ||| u == 0x205F
    ||| u == 0x3000
}

pub fn char_is_whitespace(c: char) -> (r: bool)
    ensures
        r == is_whitespace(c),
{
    let u = c as u32;
    (0x09 <= u && u <= 0x0D) || u == 0x20 || u == 0x85 || u == 0xA0 || u == 0x1680 || (0x2000
        <= u && u <= 0x200A) || u == 0x2028 || u == 0x2029 || u == 0x202F || u == 0x205F || u
        == 0x3000
}

/// `s` without its leading whitespace.
pub open spec fn trim_start(s: Seq<char>) -> Seq<char>
    decreases s.len(),
{
    if s.len() > 0 && is_whitespace(s[0]) {
        trim_start(s.drop_first())
    } else {
        s
    }
}

/// `s` without its trailing whitespace.
pub open spec fn trim_end(s: Seq<char>) -> Seq<char>
    decreases s.len(),
{
    if s.len() > 0 && is_whitespace(s.last()) {
        trim_end(s.drop_last())
    } else {
        s
    }
}

/// `s` without leading and trailing whitespace (`str::trim`).
pub open spec fn trim(s: Seq<char>) -> Seq<char> {
    trim_end(trim_start(s))
}

/// The characters of `s` in `[lo, hi)`.
pub fn subvec(s: &Vec<char>, lo: usize, hi: usize) -> (r: Vec<char>)
    requires
        lo <= hi <= s@.len(),
    ensures
        r@ == s@.subrange(lo as int, hi as int),
{
    let mut r: Vec<char> = Vec::new();
    let mut i = lo;
    while i < hi
        invariant
            lo <= i <= hi <= s@.len(),
            r@ == s@.subrange(lo as int, i as int),
        decreases hi - i,
    {
        r.push(s[i]);
        assert(s@.subrange(lo as int, i as int).push(s@[i as int]) =~= s@.subrange(
            lo as int,
            i + 1,
        ));
        i = i + 1;
    }
    r
}

proof fn lemma_trim_start_step(s: Seq<char>, i: int, hi: int)
    requires
        0 <= i < hi <= s.len(),
        is_whitespace(s[i]),
    ensures
        trim_start(s.subrange(i, hi)) == trim_start(s.subrange(i + 1, hi)),
{
    assert(s.subrange(i, hi).drop_first() =~= s.subrange(i + 1, hi));
}

proof fn lemma_trim_end_step(s: Seq<char>, lo: int, j: int)
    requires
        0 <= lo < j <= s.len(),
        is_whitespace(s[j - 1]),
    ensures
        trim_end(s.subrange(lo, j)) == trim_end(s.subrange(lo, j - 1)),
{
    assert(s.subrange(lo, j).drop_last() =~= s.subrange(lo, j - 1));
}

/// `s` without leading and trailing whitespace.
pub fn trim_vec(s: &Vec<char>) -> (r: Vec<char>)
    ensures
        r@ == trim(s@),
{
    let n = s.len();
    let mut i: usize = 0;
    assert(s@.subrange(0, n as int) =~= s@);
    while i < n && char_is_whitespace(s[i])
        invariant
            i <= n == s@.len(),
            trim_start(s@) == trim_start(s@.subrange(i as int, n as int)),
        decreases n - i,
    {
        proof {
            lemma_trim_start_step(s@, i as int, n as int);
        }
        i = i + 1;
    }
    let ghost t = s@.subrange(i as int, n as int);
    assert(trim_start(t) == t);
    assert(trim_start(s@) == t);
    let mut j: usize = n;
    assert(t =~= s@.subrange(i as int, j as int));
    while j > i && char_is_whitespace(s[j - 1])
        invariant
            i <= j <= n == s@.len(),
            trim_end(t) == trim_end(s@.subrange(i as int, j as int)),
        decreases j - i,
    {
        proof {
            lemma_trim_end_step(s@, i as int, j as int);
        }
        j = j - 1;
    }
    let ghost u = s@.subrange(i as int, j as int);
    assert(u.len() > 0 ==> u.last() == s@[j - 1]);
    assert(trim_end(u) == u);
    subvec(s, i, j)
}


/// The pieces of `s` between the non-overlapping occurrences of `p`, searched
/// from the left and starting at `i`, where the current piece began at
/// `start` (`str::split` with a string pattern).
pub open spec fn split_from(s: Seq<char>, p: Seq<char>, start: int, i: int) -> Seq<Seq<char>>
    decreases s.len() - i,
{
    if p.len() == 0 || i < start || start < 0 || i + p.len() > s.len() {
        seq![s.subrange(start, s.len() as int)]
    } else if s.subrange(i, i + p.len()) == p {
        seq![s.subrange(start, i)] + split_from(s, p, i + p.len(), i + p.len())
    } else {
        split_from(s, p, start, i + 1)
    }
}

/// The pieces of `s` between the occurrences of the non-empty pattern `p`.
pub open spec fn split_on(s: Seq<char>, p: Seq<char>) -> Seq<Seq<char>> {
    split_from(s, p, 0, 0)
}

/// Whether `s` holds `p` at position `i`.
fn matches_at(s: &Vec<char>, p: &Vec<char>, i: usize) -> (r: bool)
    requires
        i + p@.len() <= s@.len(),
    ensures
        r == (s@.subrange(i as int, i + p@.len()) == p@),
{
    let ghost n = s.len();
    let mut k: usize = 0;
    while k < p.len()
        invariant
            k <= p@.len(),
            n == s@.len(),
            i + p@.len() <= s@.len(),
            forall|m: int| 0 <= m < k ==> s@[i + m] == p@[m],
        decreases p@.len() - k,
    {
        if s[i + k] != p[k] {
            assert(s@.subrange(i as int, i + p@.len())[k as int] != p@[k as int]);
            return false;
        }
        k = k + 1;
    }
    assert(s@.subrange(i as int, i + p@.len()) =~= p@);
    true
}

/// The pieces of `s` between the occurrences of `p`.
pub fn split_vec(s: &Vec<char>, p: &Vec<char>) -> (r: Vec<Vec<char>>)
    requires
        p@.len() > 0,
    ensures
        r@.len() == split_on(s@, p@).len(),
        forall|k: int| 0 <= k < r@.len() ==> #[trigger] r@[k]@ == split_on(s@, p@)[k],
{
    let mut out: Vec<Vec<char>> = Vec::new();
    let ghost done: Seq<Seq<char>> = Seq::empty();
    let mut start: usize = 0;
    let mut i: usize = 0;
    let n = s.len();
    let m = p.len();
    while m <= n - i
        invariant
            n == s@.len(),
            m == p@.len() > 0,
            start <= i <= n,
            out@.len() == done.len(),
            forall|k: int| 0 <= k < out@.len() ==> #[trigger] out@[k]@ == done[k],
            done + split_from(s@, p@, start as int, i as int) == split_on(s@, p@),
        decreases n - i,
    {
        if matches_at(s, p, i) {
            assert(i + m <= n);
            let piece = subvec(s, start, i);
            proof {
                let rest = split_from(s@, p@, (i + m) as int, (i + m) as int);
                assert(split_from(s@, p@, start as int, i as int) == seq![s@.subrange(
                    start as int,
                    i as int,
                )] + rest);
                assert(done.push(piece@) + rest =~= done + (seq![piece@] + rest));
                done = done.push(piece@);
            }
            out.push(piece);
            i = i + m;
            start = i;
        } else {
            i = i + 1;
        }
    }
    let last = subvec(s, start, n);
    proof {
        assert(split_from(s@, p@, start as int, i as int) == seq![s@.subrange(
            start as int,
            n as int,
        )]);
        assert(done.push(last@) =~= done + seq![last@]);
        done = done.push(last@);
    }
    out.push(last);
    out
}

/// The index of the first `c` in `s`, if any.
pub open spec fn first_index(s: Seq<char>, c: char) -> Option<int>
    decreases s.len(),
{
    if s.len() == 0 {
        None
    } else if s[0] == c {
        Some(0)
    } else {
        match first_index(s.drop_first(), c) {
            Some(k) => Some(k + 1),
            None => None,
        }
    }
}

proof fn lemma_first_index(s: Seq<char>, c: char)
    ensures
        match first_index(s, c) {
            Some(k) => 0 <= k < s.len() && s[k] == c && forall|j: int| 0 <= j < k ==> s[j] != c,
            None => forall|j: int| 0 <= j < s.len() ==> s[j] != c,
        },
    decreases s.len(),
{
    if s.len() > 0 && s[0] != c {
        lemma_first_index(s.drop_first(), c);
        match first_index(s.drop_first(), c) {
            Some(k) => {
                assert forall|j: int| 0 <= j < k + 1 implies s[j] != c by {
                    if j > 0 {
                        assert(s[j] == s.drop_first()[j - 1]);
                    }
                }
            },
            None => {
                assert forall|j: int| 0 <= j < s.len() implies s[j] != c by {
                    if j > 0 {
                        assert(s[j] == s.drop_first()[j - 1]);
                    }
                }
            },
        }
    }
}

proof fn lemma_first_index_unique(s: Seq<char>, c: char, k: int)
    requires
        0 <= k < s.len(),
        s[k] == c,
        forall|j: int| 0 <= j < k ==> s[j] != c,
    ensures
        first_index(s, c) == Some(k),
    decreases s.len(),
{
    if k > 0 {
        assert forall|j: int| 0 <= j < k - 1 implies s.drop_first()[j] != c by {
            assert(s.drop_first()[j] == s[j + 1]);
        }
        lemma_first_index_unique(s.drop_first(), c, k - 1);
    }
}

/// The position of the first `c` in `s`, if any.
pub fn find_char(s: &Vec<char>, c: char) -> (r: Option<usize>)
    ensures
        match r {
            Some(k) => k < s@.len() && first_index(s@, c) == Some(k as int),
            None => first_index(s@, c) is None,
        },
{
    let mut i: usize = 0;
    while i < s.len()
        invariant
            i <= s@.len(),
            forall|j: int| 0 <= j < i ==> s@[j] != c,
        decreases s@.len() - i,
    {
        if s[i] == c {
            proof {
                lemma_first_index_unique(s@, c, i as int);
            }
            return Some(i);
        }
        i = i + 1;
    }
    proof {
        lemma_first_index(s@, c);
    }
    None
}

/// Whether two character sequences are equal.
pub fn chars_eq(a: &Vec<char>, b: &Vec<char>) -> (r: bool)
    ensures
        r == (a@ == b@),
{
    if a.len() != b.len() {
        return false;
    }
    let mut i: usize = 0;
    while i < a.len()
        invariant
            i <= a@.len() == b@.len(),
            forall|j: int| 0 <= j < i ==> a@[j] == b@[j],
        decreases a@.len() - i,
    {
        if a[i] != b[i] {
            return false;
        }
        i = i + 1;
    }
    assert(a@ =~= b@);
    true
}

/// Whether the characters of `a` spell `b`.
pub fn chars_eq_str(a: &Vec<char>, b: &str) -> (r: bool)
    ensures
        r == (a@ == b@),
{
    let bv = chars_of(b);
    chars_eq(a, &bv)
}

/// Whether two strings are equal.
pub fn str_eq(a: &str, b: &str) -> (r: bool)
    ensures
        r == (a@ == b@),
{
    let av = chars_of(a);
    chars_eq_str(&av, b)
}

/// ASCII lower-casing of one character (`char::to_ascii_lowercase`).
pub open spec fn ascii_lower(c: char) -> char {
    if 'A' <= c <= 'Z' {
        ((c as u32) + 32) as char
    } else {
        c
    }
}

/// Equality up to ASCII case (`str::eq_ignore_ascii_case`).
pub open spec fn eq_ignore_ascii_case(a: Seq<char>, b: Seq<char>) -> bool {
    &&& a.len() == b.len()
    &&& forall|i: int| 0 <= i < a.len() ==> ascii_lower(#[trigger] a[i]) == ascii_lower(b[i])
}

fn char_ascii_lower(c: char) -> (r: u32)
    ensures
        r == ascii_lower(c) as u32,
{
    let u = c as u32;
    if 65 <= u && u <= 90 {
        u + 32
    } else {
        u
    }
}

/// Whether `a` and `b` are equal up to ASCII case.
pub fn chars_eq_ignore_ascii_case(a: &Vec<char>, b: &Vec<char>) -> (r: bool)
    ensures
        r == eq_ignore_ascii_case(a@, b@),
{
    if a.len() != b.len() {
        return false;
    }
    let mut i: usize = 0;
    while i < a.len()
        invariant
            i <= a@.len() == b@.len(),
            forall|j: int| 0 <= j < i ==> ascii_lower(#[trigger] a@[j]) == ascii_lower(b@[j]),
        decreases a@.len() - i,
    {
        let x = char_ascii_lower(a[i]);
        let y = char_ascii_lower(b[i]);
        if x != y {
            return false;
        }
        assert(ascii_lower(a@[i as int]) == ascii_lower(b@[i as int]));
        i = i + 1;
    }
    true
}

/// What `str::to_lowercase` returns for a string: its Unicode lower-case
/// mapping as the standard library defines it (which is not always one
/// character at a time: a final capital sigma, for one, maps by context).
pub uninterp spec fn lowercase(s: Seq<char>) -> Seq<char>;

/// `str::to_lowercase`.  The result is the standard library's Unicode
/// lower-case mapping of `s`; the mapping itself is not restated here.
#[verifier::external_body]
pub(crate) fn to_lowercase(s: &str) -> (r: String)
    ensures
        r@ == lowercase(s@),
{
    s.to_lowercase()
}


/// Appends the characters of `v` to `s`.
pub fn push_chars(s: &mut String, v: &Vec<char>)
    ensures
        final(s)@ == old(s)@ + v@,
{
    let mut i: usize = 0;
    while i < v.len()
        invariant
            i <= v@.len(),
            s@ == old(s)@ + v@.take(i as int),
        decreases v@.len() - i,
    {
        push_char(s, v[i]);
        assert(v@.take(i as int).push(v@[i as int]) =~= v@.take(i + 1));
        i = i + 1;
    }
    assert(v@.take(v@.len() as int) =~= v@);
}


proof fn lemma_split_from_len(s: Seq<char>, p: Seq<char>, start: int, i: int)
    requires
        p.len() > 0,
        0 <= start <= i <= s.len(),
    ensures
        split_from(s, p, start, i).len() <= s.len() - i + 1,
    decreases s.len() - i,
{
    if i + p.len() > s.len() {
    } else if s.subrange(i, i + p.len()) == p {
        lemma_split_from_len(s, p, i + p.len(), i + p.len());
    } else {
        lemma_split_from_len(s, p, start, i + 1);
    }
}

/// Splitting never yields more pieces than one plus the text's length.
pub proof fn lemma_split_on_len(s: Seq<char>, p: Seq<char>)
    requires
        p.len() > 0,
    ensures
        split_on(s, p).len() <= s.len() + 1,
{
    lemma_split_from_len(s, p, 0, 0);
}

/// Equality up to ASCII case compares whole texts: texts of different
/// lengths never match (a value is not matched by a prefix or an
/// extension of it), the relation is symmetric, and each text matches
/// itself and its copies with letters in other case.
pub proof fn law_eq_ignore_ascii_case(a: Seq<char>, b: Seq<char>)
    ensures
        a.len() != b.len() ==> !eq_ignore_ascii_case(a, b),
        eq_ignore_ascii_case(a, b) == eq_ignore_ascii_case(b, a),
        eq_ignore_ascii_case(a, a),
        eq_ignore_ascii_case(a, b) ==> forall|i: int| 0 <= i < a.len() ==> ascii_lower(#[trigger] a[i]) == ascii_lower(b[i]),
{
}

}
