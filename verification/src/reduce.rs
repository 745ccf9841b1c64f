//! The tree reducer: folds a tagged span tree into a `JsonValue`.
//!
//! The walk is specified as a small-step machine, `run`, and the executable
//! reducer is proved to return exactly what the machine returns. The machine
//! keeps
//! - the remaining siblings of the span being walked (`cur`) and a stack of
//!   deferred sibling lists: a container's children are pushed and walked
//!   only after the current sibling list is finished, latest first;
//! - a chain of containers under construction: a new container is walked as
//!   the current target until the end of the input, and is attached into its
//!   parent (at the key, or appended) when the walk is over;
//! - the pending-key state: inside a `pair`, the next string is a key.
//!
//! Per tag: `object` and `array` open a new container in the current target;
//! `pair` defers its children and marks the key; `string` is the pending key
//! or a value with its quotes stripped; `number` is validated against the
//! float grammar (a mismatch aborts the whole reduction) and normalized;
//! `null` attaches a null; the end-of-input marker is ignored; any other tag
//! attaches nothing, but its children are still walked.
use vstd::prelude::*;

use crate::error::InstantJsonError;
use crate::json::{
    lemma_key_index, lemma_obj_views, arr_views, key_index, obj_insert, obj_views, vview,
    JsonValue, ValueView,
};
use crate::number::{check_float_literal, is_float_literal, normalize_number, normalize_number_text};
use crate::span::{lemma_spans_view, span_size, span_view, spans_size, spans_view, SpanNode, SpanView};

verus! {

/// Where a finished container goes in its parent: nowhere (the root), under
/// a key of an object, or at the end of an array.
pub enum GSlot {
    AtRoot,
    AtKey(Seq<char>),
    AtEnd,
}

/// A container under construction.
pub enum GCont {
    GObj(Seq<(Seq<char>, ValueView)>),
    GArr(Seq<ValueView>),
}

/// A container under construction together with its place in its parent.
#[verifier::ext_equal]
pub struct GLink {
    pub slot: GSlot,
    pub cont: GCont,
}

/// The whole state of the reduction machine.
#[verifier::ext_equal]
pub struct GState {
    pub cur: Seq<SpanView>,
    pub stack: Seq<Seq<SpanView>>,
    pub chain: Seq<GLink>,
    pub is_key: bool,
    pub key: Seq<char>,
}

/// The nodes still to be walked.
pub open spec fn frames_size(fs: Seq<Seq<SpanView>>) -> nat
    decreases fs.len(),
{
    if fs.len() == 0 {
        0nat
    } else {
        frames_size(fs.drop_last()) + spans_size(fs.last())
    }
}

pub open spec fn gsize(st: GState) -> nat {
    spans_size(st.cur) + frames_size(st.stack)
}

/// The slot a container opened now would be attached at: the pending key if
/// the current target is an object, the end if it is an array.
pub open spec fn cur_slot(st: GState) -> GSlot {
    match st.chain.last().cont {
        GCont::GObj(_) => GSlot::AtKey(st.key),
        GCont::GArr(_) => GSlot::AtEnd,
    }
}

/// Attaches a finished value into a container: objects insert at the key,
/// arrays append.
pub open spec fn attach_value(c: GCont, key: Seq<char>, v: ValueView) -> GCont {
    match c {
        GCont::GObj(es) => GCont::GObj(obj_insert(es, key, v)),
        GCont::GArr(a) => GCont::GArr(a.push(v)),
    }
}

/// Attaches a scalar into the current target.
pub open spec fn attach_scalar(st: GState, v: ValueView) -> GState {
    GState {
        chain: st.chain.update(
            st.chain.len() - 1,
            GLink {
                slot: st.chain.last().slot,
                cont: attach_value(st.chain.last().cont, st.key, v),
            },
        ),
        ..st
    }
}

/// Opens a new container: its children are deferred, and it becomes the
/// current target.
pub open spec fn descend(st: GState, c: GCont, children: Seq<SpanView>) -> GState {
    GState {
        stack: st.stack.push(children),
        chain: st.chain.push(GLink { slot: cur_slot(st), cont: c }),
        ..st
    }
}

/// Attaches a finished container at its recorded slot.
pub open spec fn attach_at(c: GCont, slot: GSlot, v: ValueView) -> GCont {
    match slot {
        GSlot::AtKey(k) => match c {
            GCont::GObj(es) => GCont::GObj(obj_insert(es, k, v)),
            GCont::GArr(a) => GCont::GArr(a),
        },
        GSlot::AtEnd => match c {
            GCont::GObj(es) => GCont::GObj(es),
            GCont::GArr(a) => GCont::GArr(a.push(v)),
        },
        GSlot::AtRoot => c,
    }
}

pub open spec fn cont_value(c: GCont) -> ValueView {
    match c {
        GCont::GObj(es) => ValueView::VObject(es),
        GCont::GArr(a) => ValueView::VArray(a),
    }
}

/// Closes the chain from the deepest container up: each finished container
/// is attached into its parent at its recorded slot; the root remains.
pub open spec fn fold_chain(chain: Seq<GLink>) -> ValueView
    decreases chain.len(),
{
    if chain.len() == 0 {
        ValueView::VNull
    } else if chain.len() == 1 {
        cont_value(chain[0].cont)
    } else {
        let l = chain.last();
        let pi = chain.len() - 2;
        let parent = chain[pi];
        fold_chain(
            chain.drop_last().update(
                pi,
                GLink { slot: parent.slot, cont: attach_at(parent.cont, l.slot, cont_value(l.cont)) },
            ),
        )
    }
}

/// `frames_size` of a stack with one more frame.
pub proof fn lemma_frames_size_push(fs: Seq<Seq<SpanView>>, f: Seq<SpanView>)
    ensures
        frames_size(fs.push(f)) == frames_size(fs) + spans_size(f),
{
    assert(fs.push(f).drop_last() =~= fs);
    assert(fs.push(f).last() == f);
}

/// The machine: walks every deferred node and returns the folded root, or
/// the text of the first `number` span that fails the float grammar.
pub open spec fn run(st: GState) -> Result<ValueView, Seq<char>>
    decreases gsize(st), st.stack.len(), st.cur.len(),
{
    if st.cur.len() > 0 {
        let c = st.cur[0];
        let rest = GState { cur: st.cur.subrange(1, st.cur.len() as int), ..st };
        proof {
            lemma_frames_size_push(st.stack, c.children);
            assert(spans_size(st.cur) == span_size(c) + spans_size(
                st.cur.subrange(1, st.cur.len() as int),
            ));
            assert(span_size(c) == 1 + spans_size(c.children));
        }
        if c.tag == "object"@ {
            run(descend(rest, GCont::GObj(Seq::empty()), c.children))
        } else if c.tag == "array"@ {
            run(descend(rest, GCont::GArr(Seq::empty()), c.children))
        } else if c.tag == "pair"@ {
            run(GState { stack: rest.stack.push(c.children), is_key: true, ..rest })
        } else if c.tag == "string"@ {
            if st.is_key {
                run(GState { key: crate::json::unquote(c.text), is_key: false, ..rest })
            } else {
                run(attach_scalar(rest, ValueView::VString(crate::json::unquote(c.text))))
            }
        } else if c.tag == "number"@ {
            if is_float_literal(c.text) {
                run(attach_scalar(rest, ValueView::VNumber(normalize_number(c.text))))
            } else {
                Err(c.text)
            }
        } else if c.tag == "null"@ {
            run(attach_scalar(rest, ValueView::VNull))
        } else if c.tag == "EOI"@ {
            run(rest)
        } else {
            run(GState { stack: rest.stack.push(c.children), ..rest })
        }
    } else if st.stack.len() > 0 {
        run(GState { cur: st.stack.last(), stack: st.stack.drop_last(), ..st })
    } else {
        Ok(fold_chain(st.chain))
    }
}

/// The machine's starting state: an empty root object as the target, and
/// the root object span's children to walk.
pub open spec fn init_state(children: Seq<SpanView>) -> GState {
    GState {
        cur: children,
        stack: Seq::empty(),
        chain: seq![GLink { slot: GSlot::AtRoot, cont: GCont::GObj(Seq::empty()) }],
        is_key: false,
        key: Seq::empty(),
    }
}

/// Why a reduction failed.
pub enum RedErr {
    /// The grammar execution produced no top-level span.
    MissingRoot,
    /// The top-level span has no child to serve as the document.
    MissingRootValue,
    /// The document span is not `object`-tagged.
    RootNotObject,
    /// A `number` span whose text fails the float grammar.
    BadNumber(Seq<char>),
}

/// What reduction returns for a sequence of top-level spans: the first
/// span's first child must be an `object` span; its children feed the
/// machine.
pub open spec fn red_spec(spans: Seq<SpanView>) -> Result<ValueView, RedErr> {
    if spans.len() == 0 {
        Err(RedErr::MissingRoot)
    } else if spans[0].children.len() == 0 {
        Err(RedErr::MissingRootValue)
    } else if spans[0].children[0].tag != "object"@ {
        Err(RedErr::RootNotObject)
    } else {
        match run(init_state(spans[0].children[0].children)) {
            Ok(v) => Ok(v),
            Err(lit) => Err(RedErr::BadNumber(lit)),
        }
    }
}

/// The error value the reducer owes for each way of failing.
pub open spec fn matches_red_err(e: InstantJsonError, g: RedErr) -> bool {
    match g {
        RedErr::MissingRoot => {
            &&& e matches InstantJsonError::JsonParse { message }
            &&& message@ == "invalid root"@
        },
        RedErr::MissingRootValue => {
            &&& e matches InstantJsonError::JsonParse { message }
            &&& message@ == "invalid root object"@
        },
        RedErr::RootNotObject => {
            &&& e matches InstantJsonError::JsonParse { message }
            &&& message@ == "Root needs to be object!"@
        },
        RedErr::BadNumber(lit) => {
            &&& e matches InstantJsonError::FloatParse { literal }
            &&& literal@ == lit
        },
    }
}

/// Runtime form of `GSlot`.
enum Slot {
    AtRoot,
    AtKey(String),
    AtEnd,
}

/// Runtime form of `GCont`.
enum Cont {
    CObj(Vec<(String, JsonValue)>),
    CArr(Vec<JsonValue>),
}

/// Runtime form of `GLink`.
struct Link {
    slot: Slot,
    cont: Cont,
}

spec fn slot_view(s: Slot) -> GSlot {
    match s {
        Slot::AtRoot => GSlot::AtRoot,
        Slot::AtKey(k) => GSlot::AtKey(k@),
        Slot::AtEnd => GSlot::AtEnd,
    }
}

spec fn cont_view(c: Cont) -> GCont {
    match c {
        Cont::CObj(es) => GCont::GObj(obj_views(es@)),
        Cont::CArr(a) => GCont::GArr(arr_views(a@)),
    }
}

spec fn link_view(l: Link) -> GLink {
    GLink { slot: slot_view(l.slot), cont: cont_view(l.cont) }
}

spec fn chain_view(ch: Seq<Link>) -> Seq<GLink> {
    Seq::new(ch.len(), |i: int| link_view(ch[i]))
}

spec fn frames_view(fs: Seq<Vec<SpanNode>>) -> Seq<Seq<SpanView>> {
    Seq::new(fs.len(), |i: int| spans_view(fs[i]@))
}

spec fn gstate_of(
    cur: Seq<SpanNode>,
    stack: Seq<Vec<SpanNode>>,
    chain: Seq<Link>,
    is_key: bool,
    key: Seq<char>,
) -> GState {
    GState {
        cur: spans_view(cur),
        stack: frames_view(stack),
        chain: chain_view(chain),
        is_key: is_key,
        key: key,
    }
}

/// Inserts into an object's entries: an existing key keeps its position and
/// takes the new value; a new key is appended.
fn obj_insert_exec(es: &mut Vec<(String, JsonValue)>, key: &String, v: JsonValue)
    ensures
        obj_views(final(es)@) == obj_insert(obj_views(old(es)@), key@, vview(v)),
{
    proof {
        lemma_obj_views(old(es)@);
        lemma_key_index(obj_views(old(es)@), key@);
    }
    let n: usize = es.len();
    let mut i: usize = 0;
    while i < n
        invariant
            i <= n,
            n == es@.len(),
            es@ == old(es)@,
            forall|j: int| 0 <= j < i ==> old(es)@[j].0@ != key@,
        decreases n - i,
    {
        if es[i].0 == *key {
            let kv = (key.clone(), v);
            let ghost gold = obj_views(old(es)@);
            let _ = es.remove(i);
            es.insert(i, kv);
            proof {
                lemma_obj_views(old(es)@);
                lemma_key_index(gold, key@);
                assert(gold[i as int].0 == key@);
                assert(key_index(gold, key@) == i) by {
                    if key_index(gold, key@) < i {
                        assert(old(es)@[key_index(gold, key@)].0@ != key@);
                    }
                }
                assert(es@ =~= old(es)@.update(i as int, kv));
                crate::json::lemma_obj_views_update(old(es)@, i as int, kv);
            }
            return;
        }
        i = i + 1;
    }
    es.push((key.clone(), v));
    proof {
        let ghost gold = obj_views(old(es)@);
        lemma_obj_views(old(es)@);
        lemma_key_index(gold, key@);
        assert(key_index(gold, key@) == n) by {
            if key_index(gold, key@) < n {
                assert(old(es)@[key_index(gold, key@)].0@ != key@);
            }
        }
        crate::json::lemma_obj_views_push(old(es)@, (es@[n as int].0, es@[n as int].1));
        assert(es@ =~= old(es)@.push(es@[n as int]));
    }
}

/// Attaches a scalar value into the deepest container of the chain.
fn attach_value_exec(chain: &mut Vec<Link>, key: &String, v: JsonValue)
    requires
        old(chain)@.len() >= 1,
    ensures
        final(chain)@.len() == old(chain)@.len(),
        chain_view(final(chain)@) == chain_view(old(chain)@).update(
            old(chain)@.len() - 1,
            GLink {
                slot: chain_view(old(chain)@).last().slot,
                cont: attach_value(chain_view(old(chain)@).last().cont, key@, vview(v)),
            },
        ),
{
    let li: usize = chain.len() - 1;
    let link = match chain.pop() {
        Option::Some(l) => l,
        Option::None => {
            proof {
                assert(false);
            }
            return ;
        },
    };
    let ghost gold = chain_view(old(chain)@);
    match link.cont {
        Cont::CObj(mut es) => {
            let ghost ges = obj_views(es@);
            obj_insert_exec(&mut es, key, v);
            chain.push(Link { slot: link.slot, cont: Cont::CObj(es) });
            proof {
                assert(chain@ =~= old(chain)@.update(li as int, chain@[li as int]));
                assert(chain_view(chain@) =~= gold.update(
                    li as int,
                    GLink {
                        slot: gold.last().slot,
                        cont: attach_value(gold.last().cont, key@, vview(v)),
                    },
                ));
            }
        },
        Cont::CArr(mut a) => {
            let ghost va = a@;
            let ghost gv = v;
            a.push(v);
            proof {
                crate::json::lemma_arr_views_push(va, gv);
            }
            chain.push(Link { slot: link.slot, cont: Cont::CArr(a) });
            proof {
                assert(chain@ =~= old(chain)@.update(li as int, chain@[li as int]));
                assert(chain_view(chain@) =~= gold.update(
                    li as int,
                    GLink {
                        slot: gold.last().slot,
                        cont: attach_value(gold.last().cont, key@, vview(v)),
                    },
                ));
            }
        },
    }
}

/// Folding a chain whose root is an object gives an object.
proof fn lemma_fold_object(chain: Seq<GLink>)
    requires
        chain.len() >= 1,
        chain[0].cont is GObj,
    ensures
        fold_chain(chain) is VObject,
    decreases chain.len(),
{
    if chain.len() > 1 {
        let l = chain.last();
        let pi = chain.len() - 2;
        let parent = chain[pi];
        let next = chain.drop_last().update(
            pi,
            GLink { slot: parent.slot, cont: attach_at(parent.cont, l.slot, cont_value(l.cont)) },
        );
        assert(next[0].cont is GObj);
        lemma_fold_object(next);
    }
}

/// The machine keeps its root target an object: whatever it returns on
/// success is an object value.
proof fn lemma_run_object(st: GState)
    requires
        st.chain.len() >= 1,
        st.chain[0].cont is GObj,
    ensures
        run(st) matches Ok(v) ==> v is VObject,
    decreases gsize(st), st.stack.len(), st.cur.len(),
{
    if st.cur.len() > 0 {
        let c = st.cur[0];
        let rest = GState { cur: st.cur.subrange(1, st.cur.len() as int), ..st };
        lemma_frames_size_push(st.stack, c.children);
        assert(spans_size(st.cur) == span_size(c) + spans_size(
            st.cur.subrange(1, st.cur.len() as int),
        ));
        assert(span_size(c) == 1 + spans_size(c.children));
        if c.tag == "object"@ {
            lemma_run_object(descend(rest, GCont::GObj(Seq::empty()), c.children));
        } else if c.tag == "array"@ {
            lemma_run_object(descend(rest, GCont::GArr(Seq::empty()), c.children));
        } else if c.tag == "pair"@ {
            lemma_run_object(GState { stack: rest.stack.push(c.children), is_key: true, ..rest });
        } else if c.tag == "string"@ {
            if st.is_key {
                lemma_run_object(
                    GState { key: crate::json::unquote(c.text), is_key: false, ..rest },
                );
            } else {
                let next = attach_scalar(rest, ValueView::VString(crate::json::unquote(c.text)));
                assert(next.chain[0].cont is GObj);
                lemma_run_object(next);
            }
        } else if c.tag == "number"@ {
            if is_float_literal(c.text) {
                let next = attach_scalar(rest, ValueView::VNumber(normalize_number(c.text)));
                assert(next.chain[0].cont is GObj);
                lemma_run_object(next);
            }
        } else if c.tag == "null"@ {
            let next = attach_scalar(rest, ValueView::VNull);
            assert(next.chain[0].cont is GObj);
            lemma_run_object(next);
        } else if c.tag == "EOI"@ {
            lemma_run_object(rest);
        } else {
            lemma_run_object(GState { stack: rest.stack.push(c.children), ..rest });
        }
    } else if st.stack.len() > 0 {
        lemma_run_object(GState { cur: st.stack.last(), stack: st.stack.drop_last(), ..st });
    } else {
        lemma_fold_object(st.chain);
    }
}

/// Whenever reduction succeeds, the value is an object: the document root
/// is enforced to be an `object` span, the machine's root target starts as
/// an empty object, and every step keeps it an object.
pub proof fn lemma_red_spec_object(spans: Seq<SpanView>)
    ensures
        red_spec(spans) matches Ok(v) ==> v is VObject,
{
    if spans.len() > 0 && spans[0].children.len() > 0 && spans[0].children[0].tag == "object"@ {
        lemma_run_object(init_state(spans[0].children[0].children));
    }
}

/// The span tree that a conventional JSON grammar yields for the one-pair
/// document `{"k":t}` with a number value: the entry rule's match wraps an
/// `object` span holding one `pair` of a quoted `string` and a `number`.
pub open spec fn single_pair_tree(k: Seq<char>, t: Seq<char>) -> SpanView {
    let key_span = (SpanView { tag: "string"@, text: "\""@ + k + "\""@, children: Seq::empty() });
    let num_span = (SpanView { tag: "number"@, text: t, children: Seq::empty() });
    let pair_span = (SpanView {
        tag: "pair"@,
        text: "\""@ + k + "\""@ + ":"@ + t,
        children: seq![key_span, num_span],
    });
    let obj_span = (SpanView {
        tag: "object"@,
        text: "{"@ + pair_span.text + "}"@,
        children: seq![pair_span],
    });
    SpanView { tag: "root"@, text: obj_span.text, children: seq![obj_span] }
}

/// Round trip of a one-pair document, for every key of plain characters
/// and every number literal that normalization keeps: the span tree of
/// `{"k":t}` reduces to the object holding exactly that pair, and the
/// object serializes back to `{"k":t}`.
pub proof fn lemma_single_pair_round_trip(k: Seq<char>, t: Seq<char>)
    requires
        is_float_literal(t),
        normalize_number(t) == t,
        forall|j: int| 0 <= j < k.len() ==> crate::json::plain_char(#[trigger] k[j]),
    ensures
        red_spec(seq![single_pair_tree(k, t)]) == Ok::<ValueView, RedErr>(
            ValueView::VObject(seq![(k, ValueView::VNumber(t))]),
        ),
        crate::json::ser_value(ValueView::VObject(seq![(k, ValueView::VNumber(t))])) == "{\""@ + k
            + "\":"@ + t + "}"@,
    {
    reveal_strlit("object");
    reveal_strlit("array");
    reveal_strlit("pair");
    reveal_strlit("string");
    reveal_strlit("number");
    reveal_strlit("null");
    reveal_strlit("EOI");
    reveal_strlit("root");
    assert(("object"@).len() == 6);
    assert(("array"@).len() == 5);
    assert(("pair"@).len() == 4);
    assert(("string"@).len() == 6);
    assert(("number"@).len() == 6);
    assert(("object"@)[0] == 'o');
    assert(("string"@)[0] == 's');
    assert(("number"@)[0] == 'n');
    reveal_strlit("\"");
    assert(("\""@).len() == 1);
    let tree = single_pair_tree(k, t);
    let obj_span = tree.children[0];
    let pair_span = obj_span.children[0];
    let key_span = pair_span.children[0];
    let num_span = pair_span.children[1];
    assert(obj_span.tag == "object"@);

    // the machine's walk, one step at a time
    let st0 = init_state(obj_span.children);
    assert(st0.cur[0] == pair_span);
    assert(pair_span.tag != "object"@);
    assert(pair_span.tag != "array"@);
    assert(pair_span.tag != "string"@);
    let st1 = GState {
        stack: st0.stack.push(pair_span.children),
        is_key: true,
        ..(GState { cur: st0.cur.subrange(1, st0.cur.len() as int), ..st0 })
    };
    assert(run(st0) == run(st1));
    let st2 = GState { cur: st1.stack.last(), stack: st1.stack.drop_last(), ..st1 };
    assert(st1.cur.len() == 0);
    assert(run(st1) == run(st2));
    assert(st2.cur[0] == key_span);
    assert(key_span.tag != "object"@);
    assert(key_span.tag != "array"@);
    assert(key_span.tag != "pair"@);
    let st3 = GState {
        key: crate::json::unquote(key_span.text),
        is_key: false,
        ..(GState { cur: st2.cur.subrange(1, st2.cur.len() as int), ..st2 })
    };
    assert(run(st2) == run(st3));
    assert(crate::json::unquote(key_span.text) =~= k);
    assert(st3.cur[0] == num_span);
    assert(num_span.tag != "object"@);
    assert(num_span.tag != "array"@);
    assert(num_span.tag != "pair"@);
    assert(num_span.tag != "string"@);
    let st4 = attach_scalar(
        GState { cur: st3.cur.subrange(1, st3.cur.len() as int), ..st3 },
        ValueView::VNumber(normalize_number(t)),
    );
    assert(run(st3) == run(st4));
    assert(st4.cur.len() == 0 && st4.stack.len() == 0);
    assert(run(st4) == Ok::<ValueView, Seq<char>>(fold_chain(st4.chain)));
    assert(key_index(Seq::<(Seq<char>, ValueView)>::empty(), k) == 0);
    assert(st4.chain[0].cont =~= GCont::GObj(seq![(k, ValueView::VNumber(t))]));
    assert(st4.chain =~= seq![
        GLink { slot: GSlot::AtRoot, cont: GCont::GObj(seq![(k, ValueView::VNumber(t))]) },
    ]);
    assert(fold_chain(st4.chain) == ValueView::VObject(seq![(k, ValueView::VNumber(t))]));

    // the serialized text of the resulting object
    let es = seq![(k, ValueView::VNumber(t))];
    crate::json::lemma_escape_plain(k, 0);
    assert(crate::json::escape_string(k, 0) =~= k);
    assert(crate::json::quoted(k) == "\""@ + k + "\""@);
    assert(es.len() == 1 && es[0] == (k, ValueView::VNumber(t)));
    assert(crate::json::ser_value(ValueView::VNumber(t)) == t);
    assert(crate::json::ser_entries(es, 0) == crate::json::quoted(es[0].0) + ":"@
        + crate::json::ser_value(es[0].1) + Seq::<char>::empty());
    assert(crate::json::ser_entries(es, 0) =~= crate::json::quoted(k) + ":"@ + t);
    reveal_strlit("{");
    reveal_strlit("}");
    reveal_strlit(":");
    reveal_strlit("{\"");
    reveal_strlit("\":");
    assert(crate::json::ser_value(ValueView::VObject(es)) =~= "{\""@ + k + "\":"@ + t + "}"@);
}

/// Reduces the top-level spans of a grammar execution to a value: returns
/// exactly what `red_spec` states, each failure carried as the error value
/// that `matches_red_err` assigns to it.
pub fn reduce(spans: Vec<SpanNode>) -> (r: Result<JsonValue, InstantJsonError>)
    ensures
        match r {
            Ok(v) => red_spec(spans_view(spans@)) == Ok::<ValueView, RedErr>(vview(v)),
            Err(e) => red_spec(spans_view(spans@)) matches Err(g) && matches_red_err(e, g),
        },
{
    let ghost gspans = spans_view(spans@);
    proof {
        lemma_spans_view(spans@);
    }
    let mut work = spans;
    if work.len() == 0 {
        return Err(InstantJsonError::JsonParse { message: String::from_str("invalid root") });
    }
    let root = work.remove(0);
    proof {
        assert(gspans[0] == span_view(root));
        lemma_spans_view(root.children@);
    }
    let mut root_children = root.children;
    if root_children.len() == 0 {
        return Err(
            InstantJsonError::JsonParse { message: String::from_str("invalid root object") },
        );
    }
    let root_value = root_children.remove(0);
    proof {
        assert(gspans[0].children[0] == span_view(root_value));
    }
    let obj_tag = String::from_str("object");
    if !(root_value.tag == obj_tag) {
        return Err(
            InstantJsonError::JsonParse { message: String::from_str("Root needs to be object!") },
        );
    }
    let arr_tag = String::from_str("array");
    let pair_tag = String::from_str("pair");
    let string_tag = String::from_str("string");
    let number_tag = String::from_str("number");
    let null_tag = String::from_str("null");
    let eoi_tag = String::from_str("EOI");

    let mut cur = root_value.children;
    let mut stack: Vec<Vec<SpanNode>> = Vec::new();
    let mut chain: Vec<Link> = Vec::new();
    chain.push(Link { slot: Slot::AtRoot, cont: Cont::CObj(Vec::new()) });
    let mut is_key = false;
    let mut key = String::new();
    let ghost st0 = init_state(gspans[0].children[0].children);
    proof {
        assert(chain_view(chain@) =~= st0.chain);
        assert(frames_view(stack@) =~= st0.stack);
        assert(gstate_of(cur@, stack@, chain@, is_key, key@) =~= st0);
    }

    while cur.len() > 0 || stack.len() > 0
        invariant
            obj_tag@ == "object"@,
            arr_tag@ == "array"@,
            pair_tag@ == "pair"@,
            string_tag@ == "string"@,
            number_tag@ == "number"@,
            null_tag@ == "null"@,
            eoi_tag@ == "EOI"@,
            chain@.len() >= 1,
            chain_view(chain@)[0].cont is GObj,
            run(gstate_of(cur@, stack@, chain@, is_key, key@)) == run(st0),
            gspans == spans_view(spans@),
            gspans.len() > 0,
            gspans[0].children.len() > 0,
            gspans[0].children[0].tag == "object"@,
            st0 == init_state(gspans[0].children[0].children),
        decreases gsize(gstate_of(cur@, stack@, chain@, is_key, key@)), stack@.len(), cur@.len(),
    {
        let ghost g0 = gstate_of(cur@, stack@, chain@, is_key, key@);
        if cur.len() > 0 {
            let ghost vcur = cur@;
            let c = cur.remove(0);
            let ghost gc = span_view(c);
            proof {
                lemma_spans_view(vcur);
                assert(cur@ =~= vcur.subrange(1, vcur.len() as int));
                lemma_spans_view(cur@);
                assert(gc == g0.cur[0]);
                assert(spans_view(cur@) =~= g0.cur.subrange(1, g0.cur.len() as int));
                lemma_frames_size_push(g0.stack, gc.children);
                assert(spans_size(g0.cur) == span_size(gc) + spans_size(
                    g0.cur.subrange(1, g0.cur.len() as int),
                ));
            }
            let ghost grest = GState { cur: spans_view(cur@), ..g0 };
            if c.tag == obj_tag || c.tag == arr_tag {
                let make_obj = c.tag == obj_tag;
                let li: usize = chain.len() - 1;
                let last_is_obj = match &chain[li].cont {
                    Cont::CObj(_) => true,
                    Cont::CArr(_) => false,
                };
                let slot = if last_is_obj {
                    Slot::AtKey(key.clone())
                } else {
                    Slot::AtEnd
                };
                let ghost vch = c.children@;
                let ghost vstack = stack@;
                let ghost vchain = chain@;
                stack.push(c.children);
                let newcont = if make_obj {
                    Cont::CObj(Vec::new())
                } else {
                    Cont::CArr(Vec::new())
                };
                let ghost gcont = cont_view(newcont);
                chain.push(Link { slot, cont: newcont });
                proof {
                    assert(frames_view(stack@) =~= frames_view(vstack).push(spans_view(vch)));
                    assert(link_view(chain@.last()) == GLink { slot: cur_slot(g0), cont: gcont });
                    assert(chain_view(chain@) =~= chain_view(vchain).push(
                        GLink { slot: cur_slot(g0), cont: gcont },
                    ));
                    let g1 = gstate_of(cur@, stack@, chain@, is_key, key@);
                    assert(g1 =~= descend(grest, gcont, gc.children));
                    if make_obj {
                        assert(gcont == GCont::GObj(Seq::<(Seq<char>, ValueView)>::empty()));
                        assert(run(g0) == run(
                            descend(grest, GCont::GObj(Seq::empty()), gc.children),
                        ));
                    } else {
                        assert(gcont == GCont::GArr(Seq::<ValueView>::empty()));
                        assert(run(g0) == run(
                            descend(grest, GCont::GArr(Seq::empty()), gc.children),
                        ));
                    }
                    assert(run(g1) == run(st0));
                    assert(chain_view(chain@)[0] == chain_view(vchain)[0]);
                }
            } else if c.tag == pair_tag {
                let ghost vch = c.children@;
                let ghost vstack = stack@;
                stack.push(c.children);
                is_key = true;
                proof {
                    assert(frames_view(stack@) =~= frames_view(vstack).push(spans_view(vch)));
                    let g1 = gstate_of(cur@, stack@, chain@, is_key, key@);
                    assert(g1 =~= (GState { stack: grest.stack.push(gc.children), is_key: true, ..grest }));
                    assert(run(g0) == run(
                        GState { stack: grest.stack.push(gc.children), is_key: true, ..grest },
                    ));
                    assert(run(g1) == run(st0));
                }
            } else if c.tag == string_tag {
                let un = crate::json::unquote_text(c.text.as_str());
                if is_key {
                    key = un;
                    is_key = false;
                    proof {
                        let g1 = gstate_of(cur@, stack@, chain@, is_key, key@);
                        assert(g1 =~= (GState {
                            key: crate::json::unquote(gc.text),
                            is_key: false,
                            ..grest
                        }));
                        assert(run(g0) == run(
                            GState { key: crate::json::unquote(gc.text), is_key: false, ..grest },
                        ));
                        assert(run(g1) == run(st0));
                    }
                } else {
                    attach_value_exec(&mut chain, &key, JsonValue::JsonString(un));
                    proof {
                        let g1 = gstate_of(cur@, stack@, chain@, is_key, key@);
                        assert(g1 =~= attach_scalar(
                            grest,
                            ValueView::VString(crate::json::unquote(gc.text)),
                        ));
                        assert(run(g0) == run(
                            attach_scalar(grest, ValueView::VString(crate::json::unquote(gc.text))),
                        ));
                        assert(run(g1) == run(st0));
                        assert(chain_view(chain@)[0].cont is GObj);
                    }
                }
            } else if c.tag == number_tag {
                if check_float_literal(c.text.as_str()) {
                    let t = normalize_number_text(c.text.as_str());
                    attach_value_exec(&mut chain, &key, JsonValue::JsonNumber(t));
                    proof {
                        let g1 = gstate_of(cur@, stack@, chain@, is_key, key@);
                        assert(g1 =~= attach_scalar(
                            grest,
                            ValueView::VNumber(normalize_number(gc.text)),
                        ));
                        assert(run(g0) == run(
                            attach_scalar(grest, ValueView::VNumber(normalize_number(gc.text))),
                        ));
                        assert(run(g1) == run(st0));
                        assert(chain_view(chain@)[0].cont is GObj);
                    }
                } else {
                    proof {
                        assert(run(g0) == Err::<ValueView, Seq<char>>(gc.text));
                        assert(red_spec(gspans) == Err::<ValueView, RedErr>(
                            RedErr::BadNumber(gc.text),
                        ));
                    }
                    return Err(InstantJsonError::FloatParse { literal: c.text });
                }
            } else if c.tag == null_tag {
                attach_value_exec(&mut chain, &key, JsonValue::JsonNull);
                proof {
                    let g1 = gstate_of(cur@, stack@, chain@, is_key, key@);
                    assert(g1 =~= attach_scalar(grest, ValueView::VNull));
                    assert(run(g0) == run(attach_scalar(grest, ValueView::VNull)));
                    assert(run(g1) == run(st0));
                    assert(chain_view(chain@)[0].cont is GObj);
                }
            } else if c.tag == eoi_tag {
                proof {
                    let g1 = gstate_of(cur@, stack@, chain@, is_key, key@);
                    assert(g1 =~= grest);
                    assert(run(g0) == run(grest));
                    assert(run(g1) == run(st0));
                }
            } else {
                let ghost vch = c.children@;
                let ghost vstack = stack@;
                stack.push(c.children);
                proof {
                    assert(frames_view(stack@) =~= frames_view(vstack).push(spans_view(vch)));
                    let g1 = gstate_of(cur@, stack@, chain@, is_key, key@);
                    assert(g1 =~= (GState { stack: grest.stack.push(gc.children), ..grest }));
                    assert(run(g0) == run(GState { stack: grest.stack.push(gc.children), ..grest }));
                    assert(run(g1) == run(st0));
                }
            }
        } else {
            let ghost vstack = stack@;
            let f = match stack.pop() {
                Option::Some(f) => f,
                Option::None => {
                    proof {
                        assert(false);
                    }
                    return Err(InstantJsonError::EscapeParse);
                },
            };
            cur = f;
            proof {
                assert(spans_view(cur@) == frames_view(vstack).last());
                assert(frames_view(stack@) =~= frames_view(vstack).drop_last());
                let g1 = gstate_of(cur@, stack@, chain@, is_key, key@);
                assert(g1 =~= (GState { cur: g0.stack.last(), stack: g0.stack.drop_last(), ..g0 }));
                assert(spans_size(g0.cur) == 0);
                assert(run(g0) == run(
                    GState { cur: g0.stack.last(), stack: g0.stack.drop_last(), ..g0 },
                ));
                assert(run(g1) == run(st0));
            }
        }
    }
    proof {
        let gend = gstate_of(cur@, stack@, chain@, is_key, key@);
        assert(spans_size(gend.cur) == 0);
        assert(run(gend) == Ok::<ValueView, Seq<char>>(fold_chain(chain_view(chain@))));
    }
    let ghost target = fold_chain(chain_view(chain@));
    proof {
        assert(run(st0) == Ok::<ValueView, Seq<char>>(target));
        assert(red_spec(gspans) == Ok::<ValueView, RedErr>(target));
    }

    while chain.len() > 1
        invariant
            chain@.len() >= 1,
            chain_view(chain@)[0].cont is GObj,
            fold_chain(chain_view(chain@)) == target,
        decreases chain@.len(),
    {
        let ghost vchain = chain@;
        let l = match chain.pop() {
            Option::Some(l) => l,
            Option::None => {
                proof {
                    assert(false);
                }
                return Err(InstantJsonError::EscapeParse);
            },
        };
        let pl = match chain.pop() {
            Option::Some(l) => l,
            Option::None => {
                proof {
                    assert(false);
                }
                return Err(InstantJsonError::EscapeParse);
            },
        };
        let ghost gl = link_view(l);
        let ghost gp = link_view(pl);
        let Link { slot: lslot, cont: lcont } = l;
        let Link { slot: pslot, cont: pcont } = pl;
        let v: JsonValue = match lcont {
            Cont::CObj(es) => JsonValue::JsonObject(es),
            Cont::CArr(a) => JsonValue::JsonArray(a),
        };
        proof {
            assert(vview(v) == cont_value(gl.cont));
        }
        let newcont = match lslot {
            Slot::AtKey(k) => match pcont {
                Cont::CObj(mut es) => {
                    obj_insert_exec(&mut es, &k, v);
                    Cont::CObj(es)
                },
                Cont::CArr(a) => Cont::CArr(a),
            },
            Slot::AtEnd => match pcont {
                Cont::CArr(mut a) => {
                    let ghost va = a@;
                    let ghost gv = v;
                    a.push(v);
                    proof {
                        crate::json::lemma_arr_views_push(va, gv);
                    }
                    Cont::CArr(a)
                },
                Cont::CObj(es) => Cont::CObj(es),
            },
            Slot::AtRoot => pcont,
        };
        proof {
            assert(cont_view(newcont) == attach_at(gp.cont, gl.slot, cont_value(gl.cont)));
        }
        chain.push(Link { slot: pslot, cont: newcont });
        proof {
            let pi = vchain.len() - 2;
            assert(chain@ =~= vchain.drop_last().update(pi, chain@[pi]));
            assert(chain_view(chain@) =~= chain_view(vchain).drop_last().update(
                pi,
                GLink {
                    slot: chain_view(vchain)[pi].slot,
                    cont: attach_at(
                        chain_view(vchain)[pi].cont,
                        chain_view(vchain).last().slot,
                        cont_value(chain_view(vchain).last().cont),
                    ),
                },
            ));
            assert(fold_chain(chain_view(chain@)) == target);
            assert(chain_view(chain@)[0].cont is GObj);
        }
    }
    let l = match chain.pop() {
        Option::Some(l) => l,
        Option::None => {
            proof {
                assert(false);
            }
            return Err(InstantJsonError::EscapeParse);
        },
    };
    let ghost gl = link_view(l);
    proof {
        assert(target == cont_value(gl.cont));
    }
    match l.cont {
        Cont::CObj(es) => {
            proof {
                assert(vview(JsonValue::JsonObject(es)) == target);
            }
            Ok(JsonValue::JsonObject(es))
        },
        Cont::CArr(_) => {
            proof {
                assert(false);
            }
            Err(InstantJsonError::EscapeParse)
        },
    }
}

} // verus!
