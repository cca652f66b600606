//! The YARA compiler and compiled rule sets (through yara-x), with a record
//! of the rule sources each was handed.
use vstd::prelude::*;

verus! {

#[verifier::external_type_specification]
#[verifier::external_body]
pub struct ExYaraRules(yara_x::Rules);

#[verifier::external_type_specification]
#[verifier::external_body]
pub struct ExYaraCompiler<'a>(yara_x::Compiler<'a>);

/// A rule that matched a scanned buffer.
#[derive(Debug, Clone)]
pub struct YaraMatch {
    pub rule_name: String,
    pub namespace: String,
}

/// `s` with every tab shown as a space, as yara-x keeps a registered
/// source's text.
pub open spec fn untabbed(s: Seq<char>) -> Seq<char> {
    s.map_values(|c: char| if c == '\t' { ' ' } else { c })
}

/// The texts a `yara_x::Compiler` holds of the sources registered with it
/// (`ReportBuilder::register_source`), in the order of their source ids,
/// tabs shown as spaces.  `add_source` registers the source it is given
/// before anything else, and then, for each `include` it follows, the
/// included file.
pub uninterp spec fn yara_registered_sources(compiler: yara_x::Compiler) -> Seq<Seq<char>>;

/// Whether `names`, in order, may be the rules that yara-x reports when it
/// scans `data` with rules compiled from the rule sources `sources` (with
/// the files their `include`s read, and the clock the `time` module reads
/// at the scan).
pub uninterp spec fn yara_scan_may_report(sources: Seq<Seq<char>>, data: Seq<u8>, names: Seq<Seq<char>>) -> bool;

/// `yara_x::Compiler::new`: a compiler with no rules and no registered
/// source, in the default namespace.
#[verifier::external_body]
fn yara_compiler_new() -> (r: yara_x::Compiler<'static>)
    ensures
        yara_registered_sources(r) == Seq::<Seq<char>>::empty(),
{
    yara_x::Compiler::new()
}

/// `yara_x::Compiler::add_source`: compiles one rule source into the
/// compiler; on error, the compile error's text.  Whatever the outcome,
/// the source is registered first, after those registered before (the
/// sources of its `include`s may follow it).  Whether a source compiles
/// depends on the sources added before it and, through `include`, on
/// files; it is not stated.
#[verifier::external_body]
fn yara_add_source(compiler: &mut yara_x::Compiler<'static>, src: &str) -> (r: Result<(), String>)
    ensures
        yara_registered_sources(*old(compiler)).len() < yara_registered_sources(*final(compiler)).len(),
        yara_registered_sources(*old(compiler)) == yara_registered_sources(*final(compiler)).take(
            yara_registered_sources(*old(compiler)).len() as int,
        ),
        yara_registered_sources(*final(compiler))[yara_registered_sources(*old(compiler)).len() as int]
            == untabbed(src@),
{
    match compiler.add_source(src) {
        Ok(_) => Ok(()),
        Err(e) => Err(e.to_string()),
    }
}

/// `yara_x::Compiler::build`: the rule set compiled so far.  The rule set
/// keeps no source text, so nothing ties it to the sources here.
#[verifier::external_body]
fn yara_build(compiler: yara_x::Compiler<'static>) -> yara_x::Rules {
    compiler.build()
}

/// `yara_x::Scanner::scan` of `data` with a fresh scanner over `rules`:
/// the identifier and namespace of each matching rule, or `None` when the
/// scan fails.  The names are what yara-x may report for `data` and the
/// sources the rule set was compiled from (every `YaraRules` is built by
/// `YaraCompiler::build`, which records them).  Every rule set of this
/// library is built by `YaraCompiler`, which never opens a namespace, so
/// each rule sits in yara-x's namespace `default`.
#[verifier::external_body]
fn yara_scan(rules: &YaraRules, data: &[u8]) -> (r: Option<Vec<YaraMatch>>)
    ensures
        r matches Some(m) ==> {
            &&& forall|i: int| 0 <= i < m@.len() ==> (#[trigger] m@[i]).namespace@ == "default"@
            &&& yara_scan_may_report(rules.sources(), data@, match_names(m@))
        },
{
    let mut scanner = yara_x::Scanner::new(&rules.rules);
    match scanner.scan(data) {
        Ok(results) => Some(
            results.matching_rules().map(|r| YaraMatch {
                rule_name: r.identifier().to_string(),
                namespace: r.namespace().to_string(),
            }).collect(),
        ),
        Err(_) => None,
    }
}

/// The rule names of a list of matches.
pub open spec fn match_names(m: Seq<YaraMatch>) -> Seq<Seq<char>> {
    m.map_values(|x: YaraMatch| x.rule_name@)
}

/// A YARA compiler, with the rule sources handed to it so far.
pub struct YaraCompiler {
    compiler: yara_x::Compiler<'static>,
    handed: Ghost<Seq<Seq<char>>>,
    at: Ghost<Seq<int>>,
}

/// A compiled YARA rule set, with the rule sources it was compiled from.
pub struct YaraRules {
    rules: yara_x::Rules,
    sources: Ghost<Seq<Seq<char>>>,
}

impl YaraCompiler {
    /// The rule sources handed to this compiler, in order.
    pub closed spec fn handed(&self) -> Seq<Seq<char>> {
        self.handed@
    }

    /// The source texts the yara-x compiler holds, in order: each handed
    /// source, each followed by the files its `include`s read.
    pub closed spec fn registered(&self) -> Seq<Seq<char>> {
        yara_registered_sources(self.compiler)
    }

    /// Each handed source is registered with the yara-x compiler, in the
    /// order handed.
    pub closed spec fn wf(&self) -> bool {
        let reg = yara_registered_sources(self.compiler);
        &&& self.at@.len() == self.handed@.len()
        &&& forall|k: int| 0 <= k < self.at@.len() ==> 0 <= #[trigger] self.at@[k] < reg.len()
            && reg[self.at@[k]] == untabbed(self.handed@[k])
        &&& forall|j: int, k: int| 0 <= j < k < self.at@.len() ==> self.at@[j] < self.at@[k]
    }

    pub fn new() -> (r: Self)
        ensures
            r.wf(),
            r.handed() == Seq::<Seq<char>>::empty(),
            r.registered() == Seq::<Seq<char>>::empty(),
    {
        YaraCompiler { compiler: yara_compiler_new(), handed: Ghost(Seq::empty()), at: Ghost(Seq::empty()) }
    }

    /// Hands one rule source to the compiler; on error, yara-x's message.
    pub fn add_source(&mut self, src: &str) -> (r: Result<(), String>)
        requires
            old(self).wf(),
        ensures
            final(self).wf(),
            final(self).handed() == old(self).handed().push(src@),
            final(self).registered().len() > old(self).registered().len(),
            final(self).registered().take(old(self).registered().len() as int) == old(self).registered(),
            final(self).registered()[old(self).registered().len() as int] == untabbed(src@),
    {
        let ghost reg0 = yara_registered_sources(self.compiler);
        let r = yara_add_source(&mut self.compiler, src);
        proof {
            let reg = yara_registered_sources(self.compiler);
            assert forall|k: int| 0 <= k < self.at@.len() implies reg[#[trigger] self.at@[k]] == reg0[self.at@[k]] by {
                assert(reg.take(reg0.len() as int)[self.at@[k]] == reg[self.at@[k]]);
            }
        }
        self.handed = Ghost(self.handed@.push(src@));
        self.at = Ghost(self.at@.push(reg0.len() as int));
        r
    }

    /// The rule set compiled from the sources handed so far.
    pub fn build(self) -> (r: YaraRules)
        ensures
            r.sources() == self.handed(),
    {
        YaraRules { rules: yara_build(self.compiler), sources: self.handed }
    }
}

impl YaraRules {
    /// The rule sources this rule set was compiled from, in order.
    pub closed spec fn sources(&self) -> Seq<Seq<char>> {
        self.sources@
    }

    /// The rules that match `data`, each in namespace `default`; `None`
    /// when the scan fails.
    pub fn scan(&self, data: &[u8]) -> (r: Option<Vec<YaraMatch>>)
        ensures
            r matches Some(m) ==> {
                &&& forall|i: int| 0 <= i < m@.len() ==> (#[trigger] m@[i]).namespace@ == "default"@
                &&& yara_scan_may_report(self.sources(), data@, match_names(m@))
            },
    {
        yara_scan(self, data)
    }
}

} // verus!
