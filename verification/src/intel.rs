//! Threat intelligence: MITRE ATT&CK technique tags, the Sigma-lite rule
//! format and evaluator, the IOC store with its CSV feed format, and YARA
//! scanning.
use crate::protocol::IpAddress;
pub use crate::yara::YaraMatch;
use crate::yara::{match_names, yara_scan_may_report, YaraCompiler, YaraRules};
use crate::text::{
    chars_eq, chars_eq_ignore_ascii_case, chars_eq_str, chars_of, decimal, eq_ignore_ascii_case,
    find_char, first_index, push_chars, push_decimal, split_on, split_vec, str_eq, string_of,
    subvec, trim, trim_vec, lemma_split_on_len, lowercase, to_lowercase,
};
use std::collections::HashSet;
use vstd::prelude::*;

verus! {

// ---------------------------------------------------------------------
// MITRE ATT&CK mapping for the built-in detection rules.
// ---------------------------------------------------------------------

#[derive(Debug, Clone)]
pub struct MitreTechnique {
    pub id: String,
    pub name: String,
}

/// The technique (id, name) that a built-in detection rule maps to.
pub open spec fn mitre_spec(rule_name: Seq<char>) -> Option<(Seq<char>, Seq<char>)> {
    if rule_name == "port_scan"@ {
        Some(("T1046"@, "Network Service Discovery"@))
    } else if rule_name == "syn_flood"@ {
        Some(("T1499"@, "Endpoint Denial of Service"@))
    } else if rule_name == "arp_spoof"@ {
        Some(("T1557"@, "Adversary-in-the-Middle"@))
    } else {
        None
    }
}

/// `t` is the technique (id, name), as text.
pub open spec fn technique_is(t: Option<MitreTechnique>, m: Option<(Seq<char>, Seq<char>)>) -> bool {
    match t {
        Some(t) => m == Some((t.id@, t.name@)),
        None => m is None,
    }
}

fn technique(id: &str, name: &str) -> (r: MitreTechnique)
    ensures
        r.id@ == id@,
        r.name@ == name@,
{
    MitreTechnique { id: String::from_str(id), name: String::from_str(name) }
}

/// Static lookup from a detection rule name to its MITRE technique.
pub fn mitre_for_rule(rule_name: &str) -> (r: Option<MitreTechnique>)
    ensures
        technique_is(r, mitre_spec(rule_name@)),
{
    if str_eq(rule_name, "port_scan") {
        Some(technique("T1046", "Network Service Discovery"))
    } else if str_eq(rule_name, "syn_flood") {
        Some(technique("T1499", "Endpoint Denial of Service"))
    } else if str_eq(rule_name, "arp_spoof") {
        Some(technique("T1557", "Adversary-in-the-Middle"))
    } else {
        None
    }
}

// ---------------------------------------------------------------------
// Events evaluated by Sigma-lite rules
// ---------------------------------------------------------------------

/// The map that a list of (field, value) entries denotes, a later entry
/// for a field replacing an earlier one.
pub open spec fn entries_map(s: Seq<(String, String)>) -> Map<Seq<char>, Seq<char>>
    decreases s.len(),
{
    if s.len() == 0 {
        Map::empty()
    } else {
        entries_map(s.drop_last()).insert(s.last().0@, s.last().1@)
    }
}

/// An event: field name -> field value, e.g. `dst_port` -> `4444`.
pub struct Event {
    entries: Vec<(String, String)>,
}

impl View for Event {
    type V = Map<Seq<char>, Seq<char>>;

    closed spec fn view(&self) -> Map<Seq<char>, Seq<char>> {
        entries_map(self.entries@)
    }
}

proof fn lemma_entries_map_suffix(s: Seq<(String, String)>, i: int, k: Seq<char>)
    requires
        0 <= i <= s.len(),
        forall|j: int| i <= j < s.len() ==> (#[trigger] s[j]).0@ != k,
    ensures
        entries_map(s).contains_key(k) == entries_map(s.take(i)).contains_key(k),
        entries_map(s).contains_key(k) ==> entries_map(s)[k] == entries_map(s.take(i))[k],
    decreases s.len() - i,
{
    broadcast use vstd::map::group_map_axioms;

    if i < s.len() {
        let t = s.drop_last();
        assert forall|j: int| i <= j < t.len() implies (#[trigger] t[j]).0@ != k by {
            assert(t[j] == s[j]);
        }
        lemma_entries_map_suffix(t, i, k);
        assert(t.take(i) =~= s.take(i));
    } else {
        assert(s.take(i) =~= s);
    }
}

impl Event {
    pub fn new() -> (r: Self)
        ensures
            r@ == Map::<Seq<char>, Seq<char>>::empty(),
    {
        Event { entries: Vec::new() }
    }

    /// Sets `field` to `value`, replacing any earlier value.
    pub fn insert(&mut self, field: String, value: String)
        ensures
            final(self)@ == old(self)@.insert(field@, value@),
    {
        self.entries.push((field, value));
        assert(self.entries@.drop_last() =~= old(self).entries@);
    }

    /// The value of `field`, if the event has one.
    pub fn get(&self, field: &str) -> (r: Option<&String>)
        ensures
            match r {
                Some(v) => self@.contains_key(field@) && v@ == self@[field@],
                None => !self@.contains_key(field@),
            },
    {
        broadcast use vstd::map::group_map_axioms;

        let f = chars_of(field);
        let mut i = self.entries.len();
        while i > 0
            invariant
                i <= self.entries@.len(),
                f@ == field@,
                forall|j: int| i <= j < self.entries@.len() ==> (#[trigger] self.entries@[j]).0@
                    != field@,
            decreases i,
        {
            let k = chars_of(self.entries[i - 1].0.as_str());
            if chars_eq(&k, &f) {
                proof {
                    lemma_entries_map_suffix(self.entries@, i as int, field@);
                    let t = self.entries@.take(i as int);
                    assert(t.drop_last() =~= self.entries@.take(i - 1));
                    assert(t.last() == self.entries@[i - 1]);
                }
                return Some(&self.entries[i - 1].1);
            }
            i = i - 1;
        }
        proof {
            lemma_entries_map_suffix(self.entries@, 0, field@);
            assert(self.entries@.take(0) =~= Seq::<(String, String)>::empty());
        }
        None
    }
}

// ---------------------------------------------------------------------
// Sigma-lite rules
// ---------------------------------------------------------------------

/// One condition: `field` equals `value`, ignoring ASCII case.
#[derive(Debug, Clone)]
pub struct SigmaLiteCondition {
    pub field: String,
    pub value: String,
}

/// A rule: all its conditions must hold (and it has at least one).
#[derive(Debug, Clone)]
pub struct SigmaLiteRule {
    pub title: String,
    pub conditions: Vec<SigmaLiteCondition>,
    pub mitre: Option<String>,
}

/// Whether `event` has `c.field`, with a value equal to `c.value` up to
/// ASCII case.
pub open spec fn condition_holds(c: SigmaLiteCondition, event: Map<Seq<char>, Seq<char>>) -> bool {
    &&& event.contains_key(c.field@)
    &&& eq_ignore_ascii_case(event[c.field@], c.value@)
}

/// A condition compares the whole field value: it never holds for an
/// event whose value for the field is longer or shorter than the
/// condition's value (e.g. `dst_port: 2222` does not meet `dst_port =
/// 22`), and it holds for the value itself in any ASCII case.
pub proof fn law_condition_whole_value(c: SigmaLiteCondition, event: Map<Seq<char>, Seq<char>>)
    ensures
        event.contains_key(c.field@) && event[c.field@].len() != c.value@.len() ==> !condition_holds(c, event),
        !event.contains_key(c.field@) ==> !condition_holds(c, event),
        event.contains_key(c.field@) && event[c.field@] == c.value@ ==> condition_holds(c, event),
{
}

impl SigmaLiteRule {
    /// Whether the rule fires on `event`: it has conditions and all hold.
    pub open spec fn fires_on(&self, event: Map<Seq<char>, Seq<char>>) -> bool {
        &&& self.conditions@.len() > 0
        &&& forall|i: int|
            0 <= i < self.conditions@.len() ==> condition_holds(
                #[trigger] self.conditions@[i],
                event,
            )
    }

    pub fn matches(&self, event: &Event) -> (r: bool)
        ensures
            r == self.fires_on(event@),
    {
        if self.conditions.len() == 0 {
            return false;
        }
        let mut i: usize = 0;
        while i < self.conditions.len()
            invariant
                i <= self.conditions@.len(),
                forall|j: int| 0 <= j < i ==> condition_holds(#[trigger] self.conditions@[j], event@),
            decreases self.conditions@.len() - i,
        {
            let c = &self.conditions[i];
            match event.get(c.field.as_str()) {
                Some(v) => {
                    let vv = chars_of(v.as_str());
                    let cv = chars_of(c.value.as_str());
                    if !chars_eq_ignore_ascii_case(&vv, &cv) {
                        return false;
                    }
                },
                None => {
                    return false;
                },
            }
            i = i + 1;
        }
        true
    }
}


/// The conditions of a rule are AND-ed: a rule fires on an event exactly
/// when it has conditions and every (field, value) pair of its text is
/// present in the event, values compared up to ASCII case.
pub proof fn law_sigma_conditions_and(rule: SigmaLiteRule, event: Map<Seq<char>, Seq<char>>)
    ensures
        rule.fires_on(event) <==> {
            let cs = rule.model().conditions;
            &&& cs.len() > 0
            &&& forall|i: int|
                0 <= i < cs.len() ==> event.contains_key(#[trigger] cs[i].0) && eq_ignore_ascii_case(
                    event[cs[i].0],
                    cs[i].1,
                )
        },
{
    let cs = rule.model().conditions;
    assert(cs.len() == rule.conditions@.len());
    if rule.fires_on(event) {
        assert forall|i: int| 0 <= i < cs.len() implies event.contains_key(#[trigger] cs[i].0)
            && eq_ignore_ascii_case(event[cs[i].0], cs[i].1) by {
            assert(condition_holds(rule.conditions@[i], event));
        }
    }
    if cs.len() > 0 && forall|i: int|
        0 <= i < cs.len() ==> event.contains_key(#[trigger] cs[i].0) && eq_ignore_ascii_case(
            event[cs[i].0],
            cs[i].1,
        ) {
        assert forall|i: int| 0 <= i < rule.conditions@.len() implies condition_holds(
            #[trigger] rule.conditions@[i],
            event,
        ) by {
            assert(cs[i] == (rule.conditions@[i].field@, rule.conditions@[i].value@));
            assert(event.contains_key(cs[i].0) && eq_ignore_ascii_case(event[cs[i].0], cs[i].1));
        }
    }
}

// ---------------------------------------------------------------------
// The Sigma-lite rule file format
// ---------------------------------------------------------------------

/// A rule as text: title, (field, value) conditions, optional technique.
pub struct SigmaRuleModel {
    pub title: Seq<char>,
    pub conditions: Seq<(Seq<char>, Seq<char>)>,
    pub mitre: Option<Seq<char>>,
}

pub open spec fn opt_text(o: Option<String>) -> Option<Seq<char>> {
    match o {
        Some(s) => Some(s@),
        None => None,
    }
}

pub open spec fn conditions_text(c: Seq<SigmaLiteCondition>) -> Seq<(Seq<char>, Seq<char>)> {
    c.map_values(|x: SigmaLiteCondition| (x.field@, x.value@))
}

impl SigmaLiteRule {
    pub open spec fn model(&self) -> SigmaRuleModel {
        SigmaRuleModel {
            title: self.title@,
            conditions: conditions_text(self.conditions@),
            mitre: opt_text(self.mitre),
        }
    }
}

/// What has been read of a rule block so far.
pub struct BlockState {
    pub title: Option<Seq<char>>,
    pub mitre: Option<Seq<char>>,
    pub conditions: Seq<(Seq<char>, Seq<char>)>,
    pub pending_field: Option<Seq<char>>,
}

pub open spec fn empty_block_state() -> BlockState {
    BlockState { title: None, mitre: None, conditions: Seq::empty(), pending_field: None }
}

pub open spec fn bad_line_msg(i: nat, line: Seq<char>) -> Seq<char> {
    "block "@ + decimal(i) + ": bad line `"@ + line + "`, expected `key: value`"@
}

pub open spec fn no_field_msg(i: nat) -> Seq<char> {
    "block "@ + decimal(i) + ": `value:` with no preceding `field:`"@
}

pub open spec fn unknown_key_msg(i: nat, key: Seq<char>) -> Seq<char> {
    "block "@ + decimal(i) + ": unknown key `"@ + key + "`"@
}

pub open spec fn missing_title_msg(i: nat) -> Seq<char> {
    "block "@ + decimal(i) + ": missing `title:`"@
}

/// Reads one line of block `i`: blank lines are skipped; other lines are
/// `key: value` (split at the first `:`, both sides trimmed) with key
/// `title`, `mitre`, `field` or `value`; a `value` closes the condition
/// that the last `field` opened.
pub open spec fn sigma_line(st: BlockState, raw: Seq<char>, i: nat) -> Result<BlockState, Seq<char>> {
    let line = trim(raw);
    if line.len() == 0 {
        Ok(st)
    } else {
        match first_index(line, ':') {
            None => Err(bad_line_msg(i, line)),
            Some(k) => {
                let key = trim(line.subrange(0, k));
                let value = trim(line.subrange(k + 1, line.len() as int));
                if key == "title"@ {
                    Ok(BlockState { title: Some(value), ..st })
                } else if key == "mitre"@ {
                    Ok(BlockState { mitre: Some(value), ..st })
                } else if key == "field"@ {
                    Ok(BlockState { pending_field: Some(value), ..st })
                } else if key == "value"@ {
                    match st.pending_field {
                        Some(f) => Ok(
                            BlockState {
                                conditions: st.conditions.push((f, value)),
                                pending_field: None,
                                ..st
                            },
                        ),
                        None => Err(no_field_msg(i)),
                    }
                } else {
                    Err(unknown_key_msg(i, key))
                }
            },
        }
    }
}

/// Reads the first `n` lines of block `i`, stopping at the first error.
pub open spec fn sigma_lines(lines: Seq<Seq<char>>, n: nat, i: nat) -> Result<BlockState, Seq<char>>
    decreases n,
{
    if n == 0 {
        Ok(empty_block_state())
    } else {
        match sigma_lines(lines, (n - 1) as nat, i) {
            Ok(st) => sigma_line(st, lines[n - 1], i),
            Err(e) => Err(e),
        }
    }
}

/// The rule that the (trimmed, non-empty) block `i` describes.
pub open spec fn sigma_block(block: Seq<char>, i: nat) -> Result<SigmaRuleModel, Seq<char>> {
    let lines = split_on(block, seq!['\n']);
    match sigma_lines(lines, lines.len(), i) {
        Err(e) => Err(e),
        Ok(st) => match st.title {
            None => Err(missing_title_msg(i)),
            Some(t) => Ok(SigmaRuleModel { title: t, conditions: st.conditions, mitre: st.mitre }),
        },
    }
}

/// The rules of the first `n` blocks; blocks that are blank after trimming
/// are skipped.
pub open spec fn sigma_blocks(blocks: Seq<Seq<char>>, n: nat) -> Result<
    Seq<SigmaRuleModel>,
    Seq<char>,
>
    decreases n,
{
    if n == 0 {
        Ok(Seq::empty())
    } else {
        match sigma_blocks(blocks, (n - 1) as nat) {
            Err(e) => Err(e),
            Ok(rs) => {
                let b = trim(blocks[n - 1]);
                if b.len() == 0 {
                    Ok(rs)
                } else {
                    match sigma_block(b, (n - 1) as nat) {
                        Err(e) => Err(e),
                        Ok(r) => Ok(rs.push(r)),
                    }
                }
            },
        }
    }
}

/// The rules of a Sigma-lite source: blocks separated by `---`, each a
/// sequence of `key: value` lines.
pub open spec fn sigma_source(src: Seq<char>) -> Result<Seq<SigmaRuleModel>, Seq<char>> {
    let blocks = split_on(src, "---"@);
    sigma_blocks(blocks, blocks.len())
}

proof fn lemma_lines_err(ls: Seq<Seq<char>>, m: nat, n: nat, i: nat)
    requires
        m <= n,
        sigma_lines(ls, m, i) is Err,
    ensures
        sigma_lines(ls, n, i) == sigma_lines(ls, m, i),
    decreases n - m,
{
    if n > m {
        lemma_lines_err(ls, m, (n - 1) as nat, i);
    }
}

proof fn lemma_blocks_err(bs: Seq<Seq<char>>, m: nat, n: nat)
    requires
        m <= n,
        sigma_blocks(bs, m) is Err,
    ensures
        sigma_blocks(bs, n) == sigma_blocks(bs, m),
    decreases n - m,
{
    if n > m {
        lemma_blocks_err(bs, m, (n - 1) as nat);
    }
}

proof fn lemma_block_err(block: Seq<char>, i: nat, k: nat)
    requires
        k < split_on(block, seq!['\n']).len(),
        sigma_lines(split_on(block, seq!['\n']), k + 1, i) is Err,
    ensures
        sigma_block(block, i) == Err::<SigmaRuleModel, Seq<char>>(
            sigma_lines(split_on(block, seq!['\n']), k + 1, i)->Err_0,
        ),
{
    let ls = split_on(block, seq!['\n']);
    lemma_lines_err(ls, k + 1, ls.len(), i);
}

fn block_prefix(i: usize) -> (r: String)
    ensures
        r@ == "block "@ + decimal(i as nat),
{
    let mut s = String::from_str("block ");
    push_decimal(&mut s, i as u64);
    s
}

/// The rule of the trimmed, non-empty block `i`.
fn parse_sigma_block(block: &Vec<char>, i: usize) -> (r: Result<SigmaLiteRule, String>)
    ensures
        match r {
            Ok(rule) => sigma_block(block@, i as nat) == Ok::<SigmaRuleModel, Seq<char>>(rule.model()),
            Err(e) => sigma_block(block@, i as nat) == Err::<SigmaRuleModel, Seq<char>>(e@),
        },
{
    let nl: Vec<char> = vec!['\n'];
    assert(nl@ =~= seq!['\n']);
    let lines = split_vec(block, &nl);
    let ghost ls = split_on(block@, seq!['\n']);
    let mut title: Option<String> = None;
    let mut mitre: Option<String> = None;
    let mut conditions: Vec<SigmaLiteCondition> = Vec::new();
    let mut pending: Option<String> = None;
    let mut k: usize = 0;
    assert(conditions_text(conditions@) =~= Seq::<(Seq<char>, Seq<char>)>::empty());
    while k < lines.len()
        invariant
            k <= lines@.len() == ls.len(),
            ls == split_on(block@, seq!['\n']),
            forall|m: int| 0 <= m < lines@.len() ==> #[trigger] lines@[m]@ == ls[m],
            sigma_lines(ls, k as nat, i as nat) == Ok::<BlockState, Seq<char>>(
                BlockState {
                    title: opt_text(title),
                    mitre: opt_text(mitre),
                    conditions: conditions_text(conditions@),
                    pending_field: opt_text(pending),
                },
            ),
        decreases lines@.len() - k,
    {
        let ghost st = BlockState {
            title: opt_text(title),
            mitre: opt_text(mitre),
            conditions: conditions_text(conditions@),
            pending_field: opt_text(pending),
        };
        let line = trim_vec(&lines[k]);
        assert(lines@[k as int]@ == ls[k as int]);
        if line.len() > 0 {
            match find_char(&line, ':') {
                None => {
                    let mut e = block_prefix(i);
                    e.append(": bad line `");
                    push_chars(&mut e, &line);
                    e.append("`, expected `key: value`");
                    proof {
                        lemma_block_err(block@, i as nat, k as nat);
                    }
                    return Err(e);
                },
                Some(c) => {
                    let key = trim_vec(&subvec(&line, 0, c));
                    let value = trim_vec(&subvec(&line, c + 1, line.len()));
                    if chars_eq_str(&key, "title") {
                        title = Some(string_of(&value));
                    } else if chars_eq_str(&key, "mitre") {
                        mitre = Some(string_of(&value));
                    } else if chars_eq_str(&key, "field") {
                        pending = Some(string_of(&value));
                    } else if chars_eq_str(&key, "value") {
                        match pending {
                            Some(f) => {
                                let ghost before = conditions@;
                                conditions.push(SigmaLiteCondition { field: f, value: string_of(&value) });
                                assert(conditions_text(conditions@) =~= conditions_text(before).push(
                                    (f@, value@),
                                ));
                                pending = None;
                            },
                            None => {
                                let mut e = block_prefix(i);
                                e.append(": `value:` with no preceding `field:`");
                                proof {
                                    lemma_block_err(block@, i as nat, k as nat);
                                }
                                return Err(e);
                            },
                        }
                    } else {
                        let mut e = block_prefix(i);
                        e.append(": unknown key `");
                        push_chars(&mut e, &key);
                        e.append("`");
                        proof {
                            lemma_block_err(block@, i as nat, k as nat);
                        }
                        return Err(e);
                    }
                },
            }
        }
        k = k + 1;
    }
    match title {
        Some(t) => Ok(SigmaLiteRule { title: t, conditions, mitre }),
        None => {
            let mut e = block_prefix(i);
            e.append(": missing `title:`");
            Err(e)
        },
    }
}

/// Parses a Sigma-lite rule file:
/// ```text
/// title: Suspicious C2 port
/// mitre: T1071
/// field: dst_port
/// value: 4444
/// ---
/// title: ...
/// ```
/// Multiple `field:`/`value:` pairs before a rule's `---` are AND-ed.
pub fn parse_sigma_lite(source: &str) -> (r: Result<Vec<SigmaLiteRule>, String>)
    ensures
        match r {
            Ok(rules) => sigma_source(source@) matches Ok(ms) && rules@.len() == ms.len() && forall|
                j: int,
            | 0 <= j < ms.len() ==> #[trigger] rules@[j].model() == ms[j],
            Err(e) => sigma_source(source@) == Err::<Seq<SigmaRuleModel>, Seq<char>>(e@),
        },
{
    let src = chars_of(source);
    let sep = chars_of("---");
    proof {
        reveal_strlit("---");
    }
    let blocks = split_vec(&src, &sep);
    let ghost bs = split_on(source@, "---"@);
    let mut rules: Vec<SigmaLiteRule> = Vec::new();
    let mut k: usize = 0;
    while k < blocks.len()
        invariant
            k <= blocks@.len() == bs.len(),
            bs == split_on(source@, "---"@),
            forall|m: int| 0 <= m < blocks@.len() ==> #[trigger] blocks@[m]@ == bs[m],
            sigma_blocks(bs, k as nat) matches Ok(ms) && rules@.len() == ms.len() && forall|
                j: int,
            | 0 <= j < ms.len() ==> #[trigger] rules@[j].model() == ms[j],
        decreases blocks@.len() - k,
    {
        let block = trim_vec(&blocks[k]);
        assert(blocks@[k as int]@ == bs[k as int]);
        let ghost prev = rules@;
        if block.len() > 0 {
            match parse_sigma_block(&block, k) {
                Ok(rule) => {
                    rules.push(rule);
                    proof {
                        let ms = sigma_blocks(bs, k as nat)->Ok_0;
                        assert forall|j: int| 0 <= j < rules@.len() implies #[trigger] rules@[j].model()
                            == ms.push(rule.model())[j] by {
                            if j < prev.len() {
                                assert(rules@[j] == prev[j]);
                            }
                        }
                    }
                },
                Err(e) => {
                    proof {
                        lemma_blocks_err(bs, (k + 1) as nat, bs.len());
                    }
                    return Err(e);
                },
            }
        }
        k = k + 1;
    }
    Ok(rules)
}


// ---------------------------------------------------------------------
// IOC store
// ---------------------------------------------------------------------

/// A set of texts, each held once.
pub struct TextSet {
    items: Vec<String>,
}

impl TextSet {
    pub closed spec fn texts(&self) -> Seq<Seq<char>> {
        self.items@.map_values(|s: String| s@)
    }

    pub closed spec fn wf(&self) -> bool {
        self.texts().no_duplicates()
    }

    pub fn new() -> (r: Self)
        ensures
            r.wf(),
            r@ == Set::<Seq<char>>::empty(),
    {
        let r = TextSet { items: Vec::new() };
        assert(r.texts() =~= Seq::<Seq<char>>::empty());
        assert(r@ =~= Set::<Seq<char>>::empty());
        r
    }

    pub fn contains(&self, t: &Vec<char>) -> (r: bool)
        ensures
            r == self@.contains(t@),
    {
        let mut i: usize = 0;
        while i < self.items.len()
            invariant
                i <= self.items@.len(),
                forall|j: int| 0 <= j < i ==> self.items@[j]@ != t@,
            decreases self.items@.len() - i,
        {
            let c = chars_of(self.items[i].as_str());
            if chars_eq(&c, t) {
                assert(self.texts()[i as int] == t@);
                return true;
            }
            i = i + 1;
        }
        assert forall|j: int| 0 <= j < self.texts().len() implies self.texts()[j] != t@ by {
            assert(self.texts()[j] == self.items@[j]@);
        }
        false
    }

    pub fn insert(&mut self, s: String)
        requires
            old(self).wf(),
        ensures
            final(self).wf(),
            final(self)@ == old(self)@.insert(s@),
    {
        let c = chars_of(s.as_str());
        if self.contains(&c) {
            assert(self@.insert(s@) =~= self@);
        } else {
            let ghost before = self.texts();
            self.items.push(s);
            assert(self.texts() =~= before.push(s@));
            proof {
                before.lemma_push_to_set_commute(s@);
            }
        }
    }

    pub fn len(&self) -> (r: usize)
        requires
            self.wf(),
        ensures
            r == self@.len(),
    {
        proof {
            self.texts().unique_seq_to_set();
        }
        self.items.len()
    }
}

impl View for TextSet {
    type V = Set<Seq<char>>;

    closed spec fn view(&self) -> Set<Seq<char>> {
        self.texts().to_set()
    }
}

/// An indicator of compromise.
#[derive(Debug, Clone)]
pub enum Ioc {
    Ip(IpAddress),
    Domain(String),
    FileHash(String),
}

/// The contents of an IOC store: IPv4 and IPv6 addresses (as numbers),
/// lower-cased domains and lower-cased file hashes.
pub struct IocModel {
    pub v4: Set<u32>,
    pub v6: Set<u128>,
    pub domains: Set<Seq<char>>,
    pub hashes: Set<Seq<char>>,
}

impl IocModel {
    pub open spec fn len(self) -> nat {
        self.v4.len() + self.v6.len() + self.domains.len() + self.hashes.len()
    }

    pub open spec fn finite(self) -> bool {
        self.v4.finite() && self.v6.finite() && self.domains.finite() && self.hashes.finite()
    }

    pub open spec fn has_ip(self, ip: IpAddress) -> bool {
        match ip {
            IpAddress::V4(a) => self.v4.contains(a.spec_to_u32()),
            IpAddress::V6(a) => self.v6.contains(a.spec_to_u128()),
        }
    }

    pub open spec fn add_ip(self, ip: IpAddress) -> IocModel {
        match ip {
            IpAddress::V4(a) => IocModel { v4: self.v4.insert(a.spec_to_u32()), ..self },
            IpAddress::V6(a) => IocModel { v6: self.v6.insert(a.spec_to_u128()), ..self },
        }
    }

    pub open spec fn add_domain(self, d: Seq<char>) -> IocModel {
        IocModel { domains: self.domains.insert(lowercase(d)), ..self }
    }

    pub open spec fn add_hash(self, h: Seq<char>) -> IocModel {
        IocModel { hashes: self.hashes.insert(lowercase(h)), ..self }
    }

    pub open spec fn add(self, ioc: Ioc) -> IocModel {
        match ioc {
            Ioc::Ip(ip) => self.add_ip(ip),
            Ioc::Domain(d) => self.add_domain(d@),
            Ioc::FileHash(h) => self.add_hash(h@),
        }
    }
}

proof fn lemma_add_len(m: IocModel, ioc: Ioc)
    requires
        m.finite(),
    ensures
        m.add(ioc).finite(),
        m.len() <= m.add(ioc).len() <= m.len() + 1,
{
    broadcast use vstd::set::group_set_axioms;

}

/// After an IOC is added the store matches it (a domain or hash query is
/// lower-cased as the stored value was), and everything it matched before
/// it still matches.
pub proof fn law_ioc_add_then_match(m: IocModel, ioc: Ioc, ip: IpAddress, text: Seq<char>)
    ensures
        match ioc {
            Ioc::Ip(a) => m.add(ioc).has_ip(a),
            Ioc::Domain(d) => m.add(ioc).domains.contains(lowercase(d@)),
            Ioc::FileHash(h) => m.add(ioc).hashes.contains(lowercase(h@)),
        },
        m.has_ip(ip) ==> m.add(ioc).has_ip(ip),
        m.domains.contains(text) ==> m.add(ioc).domains.contains(text),
        m.hashes.contains(text) ==> m.add(ioc).hashes.contains(text),
{
    broadcast use vstd::set::group_set_axioms;

}

/// The store after adding each of `iocs` in turn.
pub open spec fn add_all(m: IocModel, iocs: Seq<Ioc>) -> IocModel
    decreases iocs.len(),
{
    if iocs.len() == 0 {
        m
    } else {
        add_all(m.add(iocs[0]), iocs.drop_first())
    }
}

/// Once a domain is added, any later adds keep it, and every query that
/// lower-cases to the same text matches it (e.g. `evil.example` added,
/// `EVIL.example` queried).  The same holds of IP addresses and hashes.
pub proof fn law_ioc_added_stays_matched(m: IocModel, ioc: Ioc, later: Seq<Ioc>, ip: IpAddress, query: Seq<char>)
    ensures
        ioc matches Ioc::Domain(d) && lowercase(query) == lowercase(d@)
            ==> add_all(m.add(ioc), later).domains.contains(lowercase(query)),
        ioc matches Ioc::FileHash(h) && lowercase(query) == lowercase(h@)
            ==> add_all(m.add(ioc), later).hashes.contains(lowercase(query)),
        ioc == Ioc::Ip(ip) ==> add_all(m.add(ioc), later).has_ip(ip),
{
    law_ioc_add_then_match(m, ioc, ip, query);
    lemma_add_all_keeps(m.add(ioc), later, ip, lowercase(query));
}

proof fn lemma_add_all_keeps(m: IocModel, iocs: Seq<Ioc>, ip: IpAddress, text: Seq<char>)
    ensures
        m.has_ip(ip) ==> add_all(m, iocs).has_ip(ip),
        m.domains.contains(text) ==> add_all(m, iocs).domains.contains(text),
        m.hashes.contains(text) ==> add_all(m, iocs).hashes.contains(text),
    decreases iocs.len(),
{
    if iocs.len() > 0 {
        law_ioc_add_then_match(m, iocs[0], ip, text);
        lemma_add_all_keeps(m.add(iocs[0]), iocs.drop_first(), ip, text);
    }
}

/// IP addresses, domains and file hashes to match traffic against.
/// Domains and hashes are held lower-cased and matched case-insensitively.
pub struct IocStore {
    ips_v4: HashSet<u32>,
    ips_v6: HashSet<u128>,
    domains: TextSet,
    hashes: TextSet,
}

impl View for IocStore {
    type V = IocModel;

    closed spec fn view(&self) -> IocModel {
        IocModel {
            v4: self.ips_v4@,
            v6: self.ips_v6@,
            domains: self.domains@,
            hashes: self.hashes@,
        }
    }
}

impl IocStore {
    /// The store's internal sets are consistent, finite, and hold at most
    /// `usize::MAX` entries in all.
    pub closed spec fn wf(&self) -> bool {
        &&& self.domains.wf()
        &&& self.hashes.wf()
        &&& self@.finite()
        &&& self@.len() <= usize::MAX
    }

    pub fn new() -> (r: Self)
        ensures
            r.wf(),
            r@.v4 == Set::<u32>::empty(),
            r@.v6 == Set::<u128>::empty(),
            r@.domains == Set::<Seq<char>>::empty(),
            r@.hashes == Set::<Seq<char>>::empty(),
    {
        broadcast use vstd::std_specs::hash::group_hash_axioms;

        let r = IocStore {
            ips_v4: HashSet::new(),
            ips_v6: HashSet::new(),
            domains: TextSet::new(),
            hashes: TextSet::new(),
        };
        assert(r@.len() == 0) by {
            broadcast use vstd::set::group_set_axioms;

        }
        r
    }

    /// Adds an IOC; domains and hashes are lower-cased first.
    pub fn add(&mut self, ioc: Ioc)
        requires
            old(self).wf(),
            old(self)@.len() < usize::MAX,
        ensures
            final(self).wf(),
            final(self)@ == old(self)@.add(ioc),
            old(self)@.len() <= final(self)@.len() <= old(self)@.len() + 1,
    {
        broadcast use vstd::std_specs::hash::group_hash_axioms;

        proof {
            lemma_add_len(self@, ioc);
        }
        match ioc {
            Ioc::Ip(IpAddress::V4(a)) => {
                self.ips_v4.insert(a.to_u32());
            },
            Ioc::Ip(IpAddress::V6(a)) => {
                self.ips_v6.insert(a.to_u128());
            },
            Ioc::Domain(d) => {
                self.domains.insert(to_lowercase(d.as_str()));
            },
            Ioc::FileHash(h) => {
                self.hashes.insert(to_lowercase(h.as_str()));
            },
        }
    }

    pub fn matches_ip(&self, ip: &IpAddress) -> (r: bool)
        ensures
            r == self@.has_ip(*ip),
    {
        broadcast use vstd::std_specs::hash::group_hash_axioms;

        match ip {
            IpAddress::V4(a) => self.ips_v4.contains(&a.to_u32()),
            IpAddress::V6(a) => self.ips_v6.contains(&a.to_u128()),
        }
    }

    pub fn matches_domain(&self, domain: &str) -> (r: bool)
        ensures
            r == self@.domains.contains(lowercase(domain@)),
    {
        let l = to_lowercase(domain);
        let c = chars_of(l.as_str());
        self.domains.contains(&c)
    }

    pub fn matches_hash(&self, hash: &str) -> (r: bool)
        ensures
            r == self@.hashes.contains(lowercase(hash@)),
    {
        let l = to_lowercase(hash);
        let c = chars_of(l.as_str());
        self.hashes.contains(&c)
    }

    pub fn len(&self) -> (r: usize)
        requires
            self.wf(),
        ensures
            r == self@.len(),
    {
        broadcast use vstd::std_specs::hash::group_hash_axioms;

        self.ips_v4.len() + self.ips_v6.len() + self.domains.len() + self.hashes.len()
    }

    pub fn is_empty(&self) -> (r: bool)
        requires
            self.wf(),
        ensures
            r == (self@.len() == 0),
    {
        self.len() == 0
    }
}

impl Default for IocStore {
    fn default() -> (r: Self)
        ensures
            r.wf(),
            r@.v4 == Set::<u32>::empty(),
            r@.v6 == Set::<u128>::empty(),
            r@.domains == Set::<Seq<char>>::empty(),
            r@.hashes == Set::<Seq<char>>::empty(),
    {
        Self::new()
    }
}


// ---------------------------------------------------------------------
// The IOC feed format: one `type,value` pair per line
// ---------------------------------------------------------------------

/// What one line of an IOC feed holds.
pub enum FeedLine {
    /// Blank, or a comment starting with `#`.
    Skip,
    /// `type,value`, both trimmed.
    Entry(Seq<char>, Seq<char>),
    /// A non-blank line without a comma (the trimmed line).
    Malformed(Seq<char>),
}

pub open spec fn feed_line(raw: Seq<char>) -> FeedLine {
    let line = trim(raw);
    if line.len() == 0 || line[0] == '#' {
        FeedLine::Skip
    } else {
        match first_index(line, ',') {
            None => FeedLine::Malformed(line),
            Some(k) => FeedLine::Entry(
                trim(line.subrange(0, k)),
                trim(line.subrange(k + 1, line.len() as int)),
            ),
        }
    }
}

/// The lines of a feed.
pub open spec fn feed_lines(contents: Seq<char>) -> Seq<Seq<char>> {
    split_on(contents, seq!['\n'])
}

/// The values of the `ip` entries among the first `n` lines, in order.
pub open spec fn ip_values(lines: Seq<Seq<char>>, n: nat) -> Seq<Seq<char>>
    decreases n,
{
    if n == 0 {
        Seq::empty()
    } else {
        let before = ip_values(lines, (n - 1) as nat);
        match feed_line(lines[n - 1]) {
            FeedLine::Entry(kind, value) => if kind == "ip"@ {
                before.push(value)
            } else {
                before
            },
            _ => before,
        }
    }
}

/// The store, the number of IOCs loaded, and the number of `ip` entries
/// read, after some lines of a feed.
pub struct FeedState {
    pub store: IocModel,
    pub loaded: nat,
    pub ips_read: nat,
}

/// `path:N`, where `N` is the 1-based number of line `lineno`.
pub open spec fn location(path: Seq<char>, lineno: nat) -> Seq<char> {
    path + ":"@ + decimal(lineno + 1)
}

/// Reads line `lineno`.  `ips[j]` is how the `j`-th `ip` value of the feed
/// parses as an IP address (`None` where it does not).
pub open spec fn feed_step(
    path: Seq<char>,
    st: FeedState,
    raw: Seq<char>,
    lineno: nat,
    ips: Seq<Option<IpAddress>>,
) -> Result<FeedState, Seq<char>> {
    match feed_line(raw) {
        FeedLine::Skip => Ok(st),
        FeedLine::Malformed(line) => Err(
            location(path, lineno) + ": expected `type,value`, got `"@ + line + "`"@,
        ),
        FeedLine::Entry(kind, value) => if kind == "ip"@ {
            match ips[st.ips_read as int] {
                Some(ip) => Ok(
                    FeedState {
                        store: st.store.add_ip(ip),
                        loaded: st.loaded + 1,
                        ips_read: st.ips_read + 1,
                    },
                ),
                None => Err(location(path, lineno) + ": invalid IP `"@ + value + "`"@),
            }
        } else if kind == "domain"@ {
            Ok(FeedState { store: st.store.add_domain(value), loaded: st.loaded + 1, ..st })
        } else if kind == "hash"@ {
            Ok(FeedState { store: st.store.add_hash(value), loaded: st.loaded + 1, ..st })
        } else {
            Err(
                location(path, lineno) + ": unknown IOC type `"@ + kind
                    + "` (expected ip, domain, or hash)"@,
            )
        },
    }
}

/// The state after the first `n` lines, and the error that stopped the
/// reading, if one did (the state is then the one before the bad line).
pub open spec fn feed_run(
    path: Seq<char>,
    lines: Seq<Seq<char>>,
    n: nat,
    st0: FeedState,
    ips: Seq<Option<IpAddress>>,
) -> (FeedState, Option<Seq<char>>)
    decreases n,
{
    if n == 0 {
        (st0, None)
    } else {
        let (st, err) = feed_run(path, lines, (n - 1) as nat, st0, ips);
        match err {
            Some(e) => (st, Some(e)),
            None => match feed_step(path, st, lines[n - 1], (n - 1) as nat, ips) {
                Ok(st2) => (st2, None),
                Err(e) => (st, Some(e)),
            },
        }
    }
}

proof fn lemma_feed_run_stops(
    path: Seq<char>,
    lines: Seq<Seq<char>>,
    m: nat,
    n: nat,
    st0: FeedState,
    ips: Seq<Option<IpAddress>>,
)
    requires
        m <= n,
        feed_run(path, lines, m, st0, ips).1 is Some,
    ensures
        feed_run(path, lines, n, st0, ips) == feed_run(path, lines, m, st0, ips),
    decreases n - m,
{
    if n > m {
        lemma_feed_run_stops(path, lines, m, (n - 1) as nat, st0, ips);
    }
}

/// What a feed line holds, read from its characters.
fn read_feed_line(raw: &Vec<char>) -> (r: (u8, Vec<char>, Vec<char>))
    ensures
        match feed_line(raw@) {
            FeedLine::Skip => r.0 == 0,
            FeedLine::Malformed(line) => r.0 == 1 && r.1@ == line,
            FeedLine::Entry(kind, value) => r.0 == 2 && r.1@ == kind && r.2@ == value,
        },
{
    let line = trim_vec(raw);
    if line.len() == 0 || line[0] == '#' {
        return (0, Vec::new(), Vec::new());
    }
    match find_char(&line, ',') {
        None => (1, line, Vec::new()),
        Some(k) => {
            let kind = trim_vec(&subvec(&line, 0, k));
            let value = trim_vec(&subvec(&line, k + 1, line.len()));
            (2, kind, value)
        },
    }
}

impl IocStore {
    /// The values of the feed's `ip` entries, in order: the texts to parse
    /// as IP addresses before loading the feed.
    pub fn feed_ip_texts(contents: &str) -> (r: Vec<String>)
        ensures
            r@.len() == ip_values(feed_lines(contents@), feed_lines(contents@).len()).len(),
            forall|j: int|
                0 <= j < r@.len() ==> #[trigger] r@[j]@ == ip_values(
                    feed_lines(contents@),
                    feed_lines(contents@).len(),
                )[j],
    {
        let text = chars_of(contents);
        let nl: Vec<char> = vec!['\n'];
        assert(nl@ =~= seq!['\n']);
        let lines = split_vec(&text, &nl);
        let ghost ls = feed_lines(contents@);
        let mut out: Vec<String> = Vec::new();
        let mut k: usize = 0;
        while k < lines.len()
            invariant
                k <= lines@.len() == ls.len(),
                ls == feed_lines(contents@),
                forall|m: int| 0 <= m < lines@.len() ==> #[trigger] lines@[m]@ == ls[m],
                out@.len() == ip_values(ls, k as nat).len(),
                forall|j: int| 0 <= j < out@.len() ==> #[trigger] out@[j]@ == ip_values(ls, k as nat)[j],
            decreases lines@.len() - k,
        {
            let (tag, kind, value) = read_feed_line(&lines[k]);
            assert(lines@[k as int]@ == ls[k as int]);
            if tag == 2 && chars_eq_str(&kind, "ip") {
                out.push(string_of(&value));
            }
            k = k + 1;
        }
        out
    }

    /// Loads IOCs from the text of a feed named `path`: one `type,value`
    /// pair per line, `type` in {ip, domain, hash}; blank lines and lines
    /// starting with `#` are skipped.  `ips` holds, for each value that
    /// `feed_ip_texts` lists, its parse as an IP address (`None` if it is
    /// not one).  Returns the number of IOCs loaded, or the error of the
    /// first bad line; the IOCs of the lines before it stay added.
    pub fn load_feed(&mut self, path: &str, contents: &str, ips: &Vec<Option<IpAddress>>) -> (r:
        Result<usize, String>)
        requires
            old(self).wf(),
            ips@.len() == ip_values(feed_lines(contents@), feed_lines(contents@).len()).len(),
            old(self)@.len() + contents@.len() + 1 < usize::MAX,
        ensures
            final(self).wf(),
            ({
                let run = feed_run(
                    path@,
                    feed_lines(contents@),
                    feed_lines(contents@).len(),
                    FeedState { store: old(self)@, loaded: 0, ips_read: 0 },
                    ips@,
                );
                &&& final(self)@ == run.0.store
                &&& match r {
                    Ok(n) => run.1 is None && n == run.0.loaded,
                    Err(e) => run.1 == Some(e@),
                }
            }),
    {
        let text = chars_of(contents);
        let nl: Vec<char> = vec!['\n'];
        assert(nl@ =~= seq!['\n']);
        let lines = split_vec(&text, &nl);
        let ghost ls = feed_lines(contents@);
        let ghost st0 = FeedState { store: self@, loaded: 0, ips_read: 0 };
        let ghost total = ls.len();
        proof {
            lemma_split_on_len(contents@, seq!['\n']);
        }
        let mut loaded: usize = 0;
        let mut ips_read: usize = 0;
        let mut k: usize = 0;
        while k < lines.len()
            invariant
                k <= lines@.len() == ls.len() == total,
                total <= contents@.len() + 1,
                ls == feed_lines(contents@),
                st0 == (FeedState { store: old(self)@, loaded: 0, ips_read: 0 }),
                forall|m: int| 0 <= m < lines@.len() ==> #[trigger] lines@[m]@ == ls[m],
                ips@.len() == ip_values(ls, total).len(),
                st0.store.len() + contents@.len() + 1 < usize::MAX,
                self.wf(),
                self@.len() <= st0.store.len() + k,
                loaded <= k,
                ips_read == ip_values(ls, k as nat).len(),
                feed_run(path@, ls, k as nat, st0, ips@) == (
                    FeedState { store: self@, loaded: loaded as nat, ips_read: ips_read as nat },
                    None::<Seq<char>>,
                ),
            decreases lines@.len() - k,
        {
            let (tag, kind, value) = read_feed_line(&lines[k]);
            assert(lines@[k as int]@ == ls[k as int]);
            proof {
                lemma_ip_values_mono(ls, (k + 1) as nat, total);
            }
            if tag == 1 {
                let mut e = String::from_str(path);
                e.append(":");
                push_decimal(&mut e, (k + 1) as u64);
                e.append(": expected `type,value`, got `");
                push_chars(&mut e, &kind);
                e.append("`");
                proof {
                    lemma_feed_run_stops(path@, ls, (k + 1) as nat, total, st0, ips@);
                }
                return Err(e);
            } else if tag == 2 {
                if chars_eq_str(&kind, "ip") {
                    let n_ips = ips.len();
                    assert(ips_read < n_ips);
                    match ips[ips_read] {
                        Some(ip) => {
                            self.add(Ioc::Ip(ip));
                            ips_read = ips_read + 1;
                        },
                        None => {
                            let mut e = String::from_str(path);
                            e.append(":");
                            push_decimal(&mut e, (k + 1) as u64);
                            e.append(": invalid IP `");
                            push_chars(&mut e, &value);
                            e.append("`");
                            proof {
                                lemma_feed_run_stops(path@, ls, (k + 1) as nat, total, st0, ips@);
                            }
                            return Err(e);
                        },
                    }
                } else if chars_eq_str(&kind, "domain") {
                    self.add(Ioc::Domain(string_of(&value)));
                } else if chars_eq_str(&kind, "hash") {
                    self.add(Ioc::FileHash(string_of(&value)));
                } else {
                    let mut e = String::from_str(path);
                    e.append(":");
                    push_decimal(&mut e, (k + 1) as u64);
                    e.append(": unknown IOC type `");
                    push_chars(&mut e, &kind);
                    e.append("` (expected ip, domain, or hash)");
                    proof {
                        lemma_feed_run_stops(path@, ls, (k + 1) as nat, total, st0, ips@);
                    }
                    return Err(e);
                }
                loaded = loaded + 1;
            }
            k = k + 1;
        }
        Ok(loaded)
    }
}

proof fn lemma_ip_values_mono(ls: Seq<Seq<char>>, m: nat, n: nat)
    requires
        m <= n,
    ensures
        ip_values(ls, m).len() <= ip_values(ls, n).len(),
    decreases n - m,
{
    if n > m {
        lemma_ip_values_mono(ls, m, (n - 1) as nat);
    }
}


// ---------------------------------------------------------------------
// YARA matching (through yara-x)
// ---------------------------------------------------------------------

/// The error text for rule source `i` that failed to compile with `e`.
pub open spec fn yara_source_error(i: nat, e: Seq<char>) -> Seq<char> {
    "rule source #"@ + decimal(i) + ": "@ + e
}

/// The texts of the given rule sources.
pub open spec fn source_texts(rule_sources: Seq<&str>) -> Seq<Seq<char>> {
    rule_sources.map_values(|x: &str| x@)
}

/// What compiling rule source `index` came to: nothing to report if yara-x
/// accepted it, else its error text naming the source.
pub fn source_outcome(index: usize, outcome: Result<(), String>) -> (r: Result<(), String>)
    ensures
        match outcome {
            Ok(()) => r is Ok,
            Err(e) => r matches Err(m) && m@ == yara_source_error(index as nat, e@),
        },
{
    match outcome {
        Ok(()) => Ok(()),
        Err(e) => {
            let mut m = String::from_str("rule source #");
            push_decimal(&mut m, index as u64);
            m.append(": ");
            m.append(e.as_str());
            assert(m@ == yara_source_error(index as nat, e@));
            Err(m)
        },
    }
}

/// The matches of a scan: those found when the scan succeeded, none when
/// it failed.
pub fn scan_matches(outcome: Option<Vec<YaraMatch>>) -> (r: Vec<YaraMatch>)
    ensures
        match outcome {
            Some(m) => r@ == m@,
            None => r@.len() == 0,
        },
{
    match outcome {
        Some(m) => m,
        None => Vec::new(),
    }
}

/// A rule file is one named `*.yar` or `*.yara`.
pub fn is_rule_file_extension(ext: &str) -> (r: bool)
    ensures
        r == (ext@ == "yar"@ || ext@ == "yara"@),
{
    str_eq(ext, "yar") || str_eq(ext, "yara")
}

/// Compiles a set of YARA rule sources once, then scans byte buffers
/// against them.
pub struct YaraScanner {
    rules: YaraRules,
}

impl YaraScanner {
    /// The rule sources that the scanner's rules were compiled from, in
    /// order.
    pub closed spec fn sources(&self) -> Seq<Seq<char>> {
        self.rules.sources()
    }

    /// Compiles the rule sources in order, stopping at the first that does
    /// not compile; its error names its index.  With no sources there is
    /// nothing to fail, and an empty rule set is returned.
    pub fn compile(rule_sources: &[&str]) -> (r: Result<Self, String>)
        ensures
            rule_sources@.len() == 0 ==> r is Ok,
            r matches Ok(s) ==> s.sources() == source_texts(rule_sources@),
            r matches Err(m) ==> exists|i: nat, e: Seq<char>|
                i < rule_sources@.len() && m@ == yara_source_error(i, e),
    {
        let mut compiler = YaraCompiler::new();
        let mut i: usize = 0;
        while i < rule_sources.len()
            invariant
                i <= rule_sources@.len(),
                compiler.wf(),
                compiler.handed() == source_texts(rule_sources@.take(i as int)),
            decreases rule_sources@.len() - i,
        {
            assert(source_texts(rule_sources@.take(i + 1)) =~= source_texts(rule_sources@.take(i as int)).push(
                rule_sources@[i as int]@,
            ));
            let outcome = compiler.add_source(rule_sources[i]);
            match source_outcome(i, outcome) {
                Ok(()) => {},
                Err(m) => {
                    return Err(m);
                },
            }
            i = i + 1;
        }
        assert(rule_sources@.take(i as int) =~= rule_sources@);
        Ok(YaraScanner { rules: compiler.build() })
    }

    /// The rules that match `data`, each in namespace `default`; none when
    /// the scan fails.
    pub fn scan(&self, data: &[u8]) -> (r: Vec<YaraMatch>)
        ensures
            forall|i: int| 0 <= i < r@.len() ==> (#[trigger] r@[i]).namespace@ == "default"@,
            r@.len() > 0 ==> yara_scan_may_report(self.sources(), data@, match_names(r@)),
    {
        scan_matches(self.rules.scan(data))
    }
}

}
