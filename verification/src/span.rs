//! Tagged span trees: the output of running a compiled grammar over input
//! text, and the input of the tree reducer.
use vstd::prelude::*;

verus! {

/// A tagged span produced by executing a grammar: the matched rule's name,
/// the full matched text, and the spans of the sub-matches in match order.
pub struct SpanNode {
    pub tag: String,
    pub text: String,
    pub children: Vec<SpanNode>,
}

/// The mathematical shape of a span: text as `Seq<char>`, children as a
/// sequence of views.
pub struct SpanView {
    pub tag: Seq<char>,
    pub text: Seq<char>,
    pub children: Seq<SpanView>,
}

/// The view of a span node.
pub open spec fn span_view(s: SpanNode) -> SpanView
    decreases s,
{
    SpanView { tag: s.tag@, text: s.text@, children: spans_view(s.children@) }
}

/// The views of a sequence of span nodes, in order.
pub open spec fn spans_view(ss: Seq<SpanNode>) -> Seq<SpanView>
    decreases ss,
{
    if ss.len() == 0 {
        Seq::empty()
    } else {
        seq![span_view(ss[0])] + spans_view(ss.subrange(1, ss.len() as int))
    }
}

/// Pointwise description of `spans_view`.
pub proof fn lemma_spans_view(ss: Seq<SpanNode>)
    ensures
        spans_view(ss).len() == ss.len(),
        forall|i: int| 0 <= i < ss.len() ==> spans_view(ss)[i] == span_view(ss[i]),
    decreases ss.len(),
{
    if ss.len() > 0 {
        lemma_spans_view(ss.subrange(1, ss.len() as int));
    }
}

/// The number of nodes in a span tree, counting the node itself.
pub open spec fn span_size(s: SpanView) -> nat
    decreases s,
{
    1 + spans_size(s.children)
}

/// The total number of nodes under a sequence of spans.
pub open spec fn spans_size(ss: Seq<SpanView>) -> nat
    decreases ss,
{
    if ss.len() == 0 {
        0nat
    } else {
        span_size(ss[0]) + spans_size(ss.subrange(1, ss.len() as int))
    }
}

/// Builds a leaf span, as a grammar execution would for a scalar match.
pub fn span_leaf(tag: String, text: String) -> (r: SpanNode)
    ensures
        span_view(r) == (SpanView { tag: tag@, text: text@, children: Seq::<SpanView>::empty() }),
{
    SpanNode { tag, text, children: Vec::new() }
}

/// Builds an inner span from its children, as a grammar execution would for
/// a container match.
pub fn span_inner(tag: String, text: String, children: Vec<SpanNode>) -> (r: SpanNode)
    ensures
        span_view(r) == (SpanView {
            tag: tag@,
            text: text@,
            children: spans_view(children@),
        }),
{
    SpanNode { tag, text, children }
}

} // verus!
