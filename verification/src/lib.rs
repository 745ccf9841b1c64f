//! Schema-driven JSON parsing: register named PEG grammars, compile them
//! once, run them against input text, and reduce the resulting tagged span
//! tree to a typed value.
//!
//! The grammar compiler (`pest_meta`) and the grammar execution engine
//! (`pest_vm`) are external collaborators reached through the trusted items
//! below; both are deterministic in their text inputs, so their results
//! carry the named verdicts `pest_rules_ok`, `pest_rule_names` and
//! `vm_spans`. Everything that decides — the registry, the tree reducer,
//! the number handling and the serializer — is verified.
pub mod error;
pub mod json;
pub mod number;
pub mod reduce;
pub mod screen;
pub mod span;

use vstd::prelude::*;

use crate::error::InstantJsonError;
use crate::json::{vview, JsonValue, ValueView};
use crate::reduce::{matches_red_err, red_spec, reduce, RedErr};
use crate::screen::{check_grammar_text, grammar_text_safe};
use crate::span::{spans_view, SpanNode, SpanView};
use pest_meta::optimizer::{optimize, OptimizedRule};
use pest_meta::parser::{self, Rule};
use pest_meta::validator::validate_pairs;

verus! {

#[verifier::external_type_specification]
#[verifier::external_body]
pub struct ExVm(pest_vm::Vm);

#[verifier::external_type_specification]
#[verifier::external_body]
pub struct ExOptimizedRule(pest_meta::optimizer::OptimizedRule);

#[verifier::external_type_specification]
#[verifier::external_body]
#[verifier::reject_recursive_types(R)]
pub struct ExPair<'i, R>(pest::iterators::Pair<'i, R>);

/// The grammar compiler's verdict on a grammar text: whether the pipeline
/// behind `parse_pest` accepts it. The pipeline reads the text alone.
pub uninterp spec fn pest_rules_ok(g: Seq<char>) -> bool;

/// The names of the rules the grammar compiler produces for a text it
/// accepts, in rule order. A function of the text alone.
pub uninterp spec fn pest_rule_names(g: Seq<char>) -> Seq<Seq<char>>;

/// A grammar compiler report: the rendering of the one diagnostic its
/// parser raises, or the renderings of the whole batch that validation or
/// rule consumption raises — all syntax errors, not just the first.
pub enum CompilerReport {
    ParseDiag(Seq<char>),
    Batch(Seq<Seq<char>>),
}

/// The compiler's report for a text it rejects. Diagnostics and their
/// renderings are functions of the text alone.
pub uninterp spec fn pest_diags(g: Seq<char>) -> CompilerReport;

/// Relies on pest_meta's grammar pipeline: `parser::parse` on
/// `Rule::grammar_rules`, `validator::validate_pairs`,
/// `parser::consume_rules` and `optimizer::optimize` compile grammar text
/// into executable rules, deterministically in the text, so acceptance and
/// the produced rule names carry the names above. A parse diagnostic is
/// rendered into `GrammarParse`; a diagnostic batch from validation or
/// rule consumption is rendered into `Multiple`. The `requires` keeps out
/// the texts on which the pipeline aborts instead of reporting (see
/// `crate::screen`).
#[verifier::external_body]
fn parse_pest(input: &str) -> (r: Result<(Vec<OptimizedRule>, Vec<String>), InstantJsonError>)
    requires
        grammar_text_safe(input@),
    ensures
        r is Ok <==> pest_rules_ok(input@),
        r matches Ok(p) ==> p.1.deep_view() == pest_rule_names(input@),
        r matches Err(e) ==> match pest_diags(input@) {
            CompilerReport::ParseDiag(msg) => {
                &&& e matches InstantJsonError::GrammarParse { message }
                &&& message@ == msg
            },
            CompilerReport::Batch(msgs) => {
                &&& e matches InstantJsonError::Multiple(v)
                &&& v.deep_view() == msgs
            },
        },
{
    let pairs = match parser::parse(Rule::grammar_rules, input) {
        Ok(p) => p,
        Err(e) => return Err(InstantJsonError::GrammarParse { message: e.to_string() }),
    };
    if let Err(es) = validate_pairs(pairs.clone()) {
        return Err(InstantJsonError::Multiple(es.iter().map(|e| e.to_string()).collect()));
    }
    let ast = match parser::consume_rules(pairs) {
        Ok(a) => a,
        Err(es) => return Err(InstantJsonError::Multiple(es.iter().map(|e| e.to_string()).collect())),
    };
    let rules = optimize(ast);
    let names = rules.iter().map(|r| r.name.clone()).collect();
    Ok((rules, names))
}

/// Relies on `pest_vm::Vm::new` to build an executable grammar from
/// compiled rules.
pub assume_specification [ pest_vm::Vm::new ](rules: Vec<OptimizedRule>) -> pest_vm::Vm;

/// Relies on `pest::iterators::Pair`: `as_rule`, `as_str` and `into_inner`
/// hand out the matched rule's name, the matched text and the sub-matches,
/// which are copied one for one into a plain span tree. The copy recurses
/// to the depth of the pair tree, as the engine itself did to build it.
#[verifier::external_body]
fn pair_to_span<'i>(p: pest::iterators::Pair<'i, &'i str>) -> SpanNode {
    let tag = p.as_rule().to_string();
    let text = p.as_str().to_string();
    let children = p.into_inner().map(pair_to_span).collect();
    SpanNode { tag, text, children }
}

/// A registered schema: the compiled program, whether its rules define the
/// entry rule `root`, and the grammar text it was compiled from. The
/// fields are private: the only constructor is `compile`, which fills
/// them from one compilation of the source text, so every `Program` a
/// contract speaks of carries an honest description of its `vm`.
pub struct Program {
    vm: pest_vm::Vm,
    has_root: bool,
    source: String,
}

impl Program {
    /// The grammar text this program was compiled from.
    pub closed spec fn source_text(&self) -> Seq<char> {
        self.source@
    }

    /// Whether the compiled rules define the entry rule `root`.
    pub closed spec fn defines_root(&self) -> bool {
        self.has_root
    }
}

/// What running the compiled grammar of a text over an input yields from
/// the entry rule `root`: the span trees of the match, or the rendered
/// positional diagnostic. The engine reads the program and the input
/// alone, and the program is a function of its text.
pub uninterp spec fn vm_spans(grammar: Seq<char>, input: Seq<char>) -> Result<
    Seq<SpanView>,
    Seq<char>,
>;

/// Relies on `pest_vm::Vm::parse` to run the compiled grammar on the
/// input from the entry rule `root`. A failed match becomes `JsonParse`
/// carrying the engine's rendered positional diagnostic; the matched
/// pairs are copied into plain span trees. The `requires` keeps out
/// programs without a `root` rule, on which the engine aborts instead of
/// reporting. A `Program` exists only through `compile` — its fields are
/// private — so `vm` is the compilation of the source text and
/// `defines_root` records whether its rules define `root`.
#[verifier::external_body]
fn vm_parse(prog: &Program, input: &str) -> (r: Result<Vec<SpanNode>, InstantJsonError>)
    requires
        prog.defines_root(),
    ensures
        match r {
            Ok(spans) => vm_spans(prog.source_text(), input@) == Ok::<Seq<SpanView>, Seq<char>>(
                spans_view(spans@),
            ),
            Err(e) => {
                &&& e matches InstantJsonError::JsonParse { message }
                &&& vm_spans(prog.source_text(), input@) == Err::<Seq<SpanView>, Seq<char>>(
                    message@,
                )
            },
        },
{
    match prog.vm.parse("root", input) {
        Ok(pairs) => Ok(pairs.map(pair_to_span).collect()),
        Err(e) => Err(InstantJsonError::JsonParse { message: e.to_string() }),
    }
}

/// Whether one of the produced rule names is `root`.
fn contains_root(names: &Vec<String>) -> (r: bool)
    ensures
        r == names.deep_view().contains("root"@),
{
    let root = String::from_str("root");
    let n: usize = names.len();
    let mut i: usize = 0;
    while i < n
        invariant
            i <= n,
            n == names@.len(),
            root@ == "root"@,
            forall|j: int| 0 <= j < i ==> names@[j]@ != "root"@,
        decreases n - i,
    {
        if names[i] == root {
            proof {
                assert(names.deep_view()[i as int] == "root"@);
            }
            return true;
        }
        i = i + 1;
    }
    proof {
        assert forall|j: int| 0 <= j < names.deep_view().len() implies names.deep_view()[j]
            != "root"@ by {
            assert(names.deep_view()[j] == names@[j]@);
        }
    }
    false
}

/// The mapping that a sequence of registry entries denotes: later entries
/// for a name override earlier ones.
pub open spec fn programs_of(entries: Seq<(String, Program)>) -> Map<Seq<char>, Program>
    decreases entries.len(),
{
    if entries.len() == 0 {
        Map::empty()
    } else {
        programs_of(entries.drop_last()).insert(entries.last().0@, entries.last().1)
    }
}

/// A name on no entry is not in the mapping.
proof fn lemma_programs_of_absent(entries: Seq<(String, Program)>, n: Seq<char>)
    requires
        forall|i: int| 0 <= i < entries.len() ==> entries[i].0@ != n,
    ensures
        !programs_of(entries).contains_key(n),
    decreases entries.len(),
{
    if entries.len() > 0 {
        lemma_programs_of_absent(entries.drop_last(), n);
    }
}

/// An entry whose name no later entry repeats decides the mapping at its
/// name.
proof fn lemma_programs_of_found(entries: Seq<(String, Program)>, i: int)
    requires
        0 <= i < entries.len(),
        forall|j: int| i < j < entries.len() ==> entries[j].0@ != entries[i].0@,
    ensures
        programs_of(entries).contains_key(entries[i].0@),
        programs_of(entries)[entries[i].0@] == entries[i].1,
    decreases entries.len(),
{
    if i == entries.len() - 1 {
    } else {
        lemma_programs_of_found(entries.drop_last(), i);
    }
}

/// Replacing the entry of a name that occurs exactly once updates the
/// mapping at that name.
proof fn lemma_programs_of_update(entries: Seq<(String, Program)>, i: int, p: (String, Program))
    requires
        0 <= i < entries.len(),
        p.0@ == entries[i].0@,
        forall|j: int| 0 <= j < entries.len() && j != i ==> entries[j].0@ != entries[i].0@,
    ensures
        programs_of(entries.update(i, p)) == programs_of(entries).insert(p.0@, p.1),
    decreases entries.len(),
{
    let upd = entries.update(i, p);
    if i == entries.len() - 1 {
        assert(upd.drop_last() =~= entries.drop_last());
        assert(programs_of(upd) =~= programs_of(entries).insert(p.0@, p.1));
    } else {
        assert(upd.drop_last() =~= entries.drop_last().update(i, p));
        lemma_programs_of_update(entries.drop_last(), i, p);
        assert(programs_of(upd) =~= programs_of(entries).insert(p.0@, p.1));
    }
}

/// Registering a name twice leaves only the second program reachable:
/// storing under one name and then storing under it again is the same as
/// storing the second program alone.
pub proof fn lemma_reregister(m: Map<Seq<char>, Program>, n: Seq<char>, p1: Program, p2: Program)
    ensures
        m.insert(n, p1).insert(n, p2) == m.insert(n, p2),
{
    assert(m.insert(n, p1).insert(n, p2) =~= m.insert(n, p2));
}

/// Round trip at the parsing boundary, for one-pair number documents:
/// when the engine yields the conventional span tree of `{"k":t}` for an
/// input — the hypotheses are exactly what `parse`'s contract gives for a
/// successful parse — the returned value serializes back to the input
/// text.
pub proof fn lemma_parse_single_pair_round_trip(
    g: Seq<char>,
    s: Seq<char>,
    k: Seq<char>,
    t: Seq<char>,
    v: JsonValue,
)
    requires
        crate::number::is_float_literal(t),
        crate::number::normalize_number(t) == t,
        forall|j: int| 0 <= j < k.len() ==> crate::json::plain_char(#[trigger] k[j]),
        vm_spans(g, s) == Ok::<Seq<SpanView>, Seq<char>>(
            seq![crate::reduce::single_pair_tree(k, t)],
        ),
        s == "{\""@ + k + "\":"@ + t + "}"@,
        red_spec(seq![crate::reduce::single_pair_tree(k, t)]) == Ok::<ValueView, RedErr>(vview(v)),
    ensures
        crate::json::ser_value(vview(v)) == s,
{
    crate::reduce::lemma_single_pair_round_trip(k, t);
}

/// The schema registry: compiled grammars by name. The only mutable state
/// of the crate; `compile` is the only operation that changes it.
pub struct InstantJson {
    vms: Vec<(String, Program)>,
}

impl InstantJson {
    /// The registered programs, by schema name.
    pub closed spec fn programs(&self) -> Map<Seq<char>, Program> {
        programs_of(self.vms@)
    }

    /// Each name has at most one entry.
    pub closed spec fn wf(&self) -> bool {
        forall|i: int, j: int|
            0 <= i < j < self.vms@.len() ==> self.vms@[i].0@ != self.vms@[j].0@
    }

    /// An empty registry.
    pub fn new() -> (r: InstantJson)
        ensures
            r.wf(),
            r.programs() == Map::<Seq<char>, Program>::empty(),
    {
        InstantJson { vms: Vec::new() }
    }

    /// Screens and compiles the grammar text, and stores the program under
    /// the schema name, replacing any earlier program for that name:
    /// success exactly when the screen and the compiler accept the text,
    /// and the stored entry then carries that text and whether its rules
    /// define `root`. On failure the registry is exactly what it was.
    pub fn compile(&mut self, schema_name: &str, schema: &str) -> (r: Result<(), InstantJsonError>)
        requires
            old(self).wf(),
        ensures
            final(self).wf(),
            r is Ok <==> (grammar_text_safe(schema@) && pest_rules_ok(schema@)),
            r matches Ok(()) ==> exists|p: Program|
                {
                    &&& #[trigger] final(self).programs() == old(self).programs().insert(
                        schema_name@,
                        p,
                    )
                    &&& p.source_text() == schema@
                    &&& p.defines_root() == pest_rule_names(schema@).contains("root"@)
                },
            r matches Err(e) ==> final(self).programs() == old(self).programs() && ({
                if !grammar_text_safe(schema@) {
                    &&& e matches InstantJsonError::GrammarParse { message }
                    &&& message@
                        == "grammar text holds an escape or integer bound the compiler cannot carry"@
                } else {
                    match pest_diags(schema@) {
                        CompilerReport::ParseDiag(msg) => {
                            &&& e matches InstantJsonError::GrammarParse { message }
                            &&& message@ == msg
                        },
                        CompilerReport::Batch(msgs) => {
                            &&& e matches InstantJsonError::Multiple(v)
                            &&& v.deep_view() == msgs
                        },
                    }
                }
            }),
    {
        if !check_grammar_text(schema) {
            return Err(
                InstantJsonError::GrammarParse {
                    message: String::from_str(
                        "grammar text holds an escape or integer bound the compiler cannot carry",
                    ),
                },
            );
        }
        let (rules, names) = match parse_pest(schema) {
            Ok(p) => p,
            Err(e) => {
                return Err(e);
            },
        };
        let has_root = contains_root(&names);
        let vm = pest_vm::Vm::new(rules);
        let name_s = schema_name.to_owned();
        let n: usize = self.vms.len();
        let mut i: usize = 0;
        while i < n
            invariant
                i <= n,
                n == self.vms@.len(),
                name_s@ == schema_name@,
                old(self).wf(),
                self.vms@ == old(self).vms@,
                grammar_text_safe(schema@),
                pest_rules_ok(schema@),
                has_root == pest_rule_names(schema@).contains("root"@),
                forall|j: int| 0 <= j < i ==> self.vms@[j].0@ != schema_name@,
            decreases n - i,
        {
            if self.vms[i].0 == name_s {
                let ghost ventries = self.vms@;
                let _ = self.vms.remove(i);
                let new_entry = (
                    schema_name.to_owned(),
                    Program { vm, has_root, source: schema.to_owned() },
                );
                let ghost gentry = new_entry;
                self.vms.insert(i, new_entry);
                proof {
                    assert(self.vms@ == ventries.remove(i as int).insert(i as int, gentry));
                    assert(self.vms@[i as int] == gentry);
                    assert(self.vms@ =~= ventries.update(i as int, gentry));
                    assert forall|j: int|
                        0 <= j < ventries.len() && j != i as int implies ventries[j].0@
                        != ventries[i as int].0@ by {
                        if j < i as int {
                            assert(ventries[j].0@ != schema_name@);
                        }
                    }
                    lemma_programs_of_update(ventries, i as int, gentry);
                    assert(gentry.0@ == schema_name@);
                    assert(self.programs() == old(self).programs().insert(schema_name@, gentry.1));
                    assert(gentry.1.source_text() == schema@);
                    assert(gentry.1.defines_root() == pest_rule_names(schema@).contains("root"@));
                }
                return Ok(());
            }
            i = i + 1;
        }
        let ghost ventries = self.vms@;
        let new_entry = (
            schema_name.to_owned(),
            Program { vm, has_root, source: schema.to_owned() },
        );
        let ghost gentry = new_entry;
        self.vms.push(new_entry);
        proof {
            assert(self.vms@.drop_last() =~= ventries);
            assert(gentry.0@ == schema_name@);
            assert(self.programs() == old(self).programs().insert(schema_name@, gentry.1));
            assert(gentry.1.source_text() == schema@);
            assert(gentry.1.defines_root() == pest_rule_names(schema@).contains("root"@));
        }
        Ok(())
    }

    /// The program registered under the name, if any.
    fn lookup(&self, name: &str) -> (r: Option<&Program>)
        requires
            self.wf(),
        ensures
            match r {
                Some(p) => self.programs().contains_key(name@) && *p == self.programs()[name@],
                None => !self.programs().contains_key(name@),
            },
    {
        let name_s = name.to_owned();
        let n: usize = self.vms.len();
        let mut i: usize = 0;
        while i < n
            invariant
                self.wf(),
                i <= n,
                n == self.vms@.len(),
                name_s@ == name@,
                forall|j: int| 0 <= j < i ==> self.vms@[j].0@ != name@,
            decreases n - i,
        {
            if self.vms[i].0 == name_s {
                proof {
                    lemma_programs_of_found(self.vms@, i as int);
                }
                return Some(&self.vms[i].1);
            }
            i = i + 1;
        }
        proof {
            lemma_programs_of_absent(self.vms@, name@);
        }
        None
    }

    /// Looks the schema up, runs its grammar on the text from the entry
    /// rule `root`, and reduces the resulting span tree. Fails with
    /// `NotFound` exactly when the name is unregistered; a registered
    /// grammar without a `root` rule is a fixed `JsonParse` error; else
    /// the result is exactly the reduction (`red_spec`) of what the engine
    /// yields (`vm_spans`) for the registered grammar text and the input.
    pub fn parse(&self, schema_name: &str, json_str: &str) -> (r: Result<
        JsonValue,
        InstantJsonError,
    >)
        requires
            self.wf(),
        ensures
            !self.programs().contains_key(schema_name@) <==> r == Err::<
                JsonValue,
                InstantJsonError,
            >(InstantJsonError::NotFound),
            self.programs().contains_key(schema_name@) ==> ({
                let prog = self.programs()[schema_name@];
                if !prog.defines_root() {
                    &&& r matches Err(e)
                    &&& e matches InstantJsonError::JsonParse { message }
                    &&& message@ == "grammar has no rule named root"@
                } else {
                    match vm_spans(prog.source_text(), json_str@) {
                        Ok(spans) => match r {
                            Ok(v) => red_spec(spans) == Ok::<ValueView, RedErr>(vview(v))
                                && vview(v) is VObject,
                            Err(e) => red_spec(spans) matches Err(g) && matches_red_err(e, g),
                        },
                        Err(msg) => {
                            &&& r matches Err(e)
                            &&& e matches InstantJsonError::JsonParse { message }
                            &&& message@ == msg
                        },
                    }
                }
            }),
    {
        let prog = match self.lookup(schema_name) {
            Some(p) => p,
            None => {
                return Err(InstantJsonError::NotFound);
            },
        };
        if !prog.has_root {
            return Err(
                InstantJsonError::JsonParse {
                    message: String::from_str("grammar has no rule named root"),
                },
            );
        }
        let spans = match vm_parse(prog, json_str) {
            Ok(spans) => spans,
            Err(e) => {
                return Err(e);
            },
        };
        let ghost gspans = spans_view(spans@);
        match reduce(spans) {
            Ok(v) => {
                proof {
                    crate::reduce::lemma_red_spec_object(gspans);
                }
                Ok(v)
            },
            Err(e) => Err(e),
        }
    }
}

} // verus!
