//! Trees as plain values: each node with its text as characters, so that what a parse
//! yields can be stated and compared.
use vstd::prelude::*;
use crate::lexer::{Position, ScalarStyle};
use crate::parser::ast::{MappingPair, MappingStyle, Node, SequenceStyle};

verus! {

/// A node as a plain value.
pub enum NodeView {
    Scalar { value: Seq<char>, style: ScalarStyle, tag: Option<Seq<char>>, position: Position },
    Sequence { items: Seq<NodeView>, style: SequenceStyle, position: Position },
    Mapping { pairs: Seq<(NodeView, NodeView)>, style: MappingStyle, position: Position },
    Anchor { name: Seq<char>, node: Box<NodeView>, position: Position },
    Alias { name: Seq<char>, position: Position },
    Tagged { handle: Option<Seq<char>>, suffix: Seq<char>, node: Box<NodeView>, position: Position },
    Null { position: Position },
}

/// An optional string as optional characters.
pub open spec fn opt_view(s: Option<String>) -> Option<Seq<char>> {
    match s {
        Some(x) => Some(x@),
        None => None,
    }
}

/// A node as a plain value.
pub open spec fn view_of(n: Node) -> NodeView
    decreases n, 1nat
    via view_decreases
{
    match n {
        Node::Scalar(x) => NodeView::Scalar { value: x.value@, style: x.style, tag: opt_view(x.tag), position: x.position },
        Node::Sequence(x) => NodeView::Sequence { items: items_view(x.items@), style: x.style, position: x.position },
        Node::Mapping(x) => NodeView::Mapping { pairs: pairs_view(x.pairs@), style: x.style, position: x.position },
        Node::Anchor(x) => NodeView::Anchor { name: x.name@, node: Box::new(view_of(*x.node)), position: x.position },
        Node::Alias(x) => NodeView::Alias { name: x.name@, position: x.position },
        Node::Tagged(x) => NodeView::Tagged { handle: opt_view(x.handle), suffix: x.suffix@,
            node: Box::new(view_of(*x.node)), position: x.position },
        Node::Null(x) => NodeView::Null { position: x.position },
    }
}

/// Items as plain values.
pub open spec fn items_view(items: Seq<Node>) -> Seq<NodeView>
    decreases items, 0nat
{
    if items.len() == 0 { Seq::empty() } else { items_view(items.drop_last()).push(view_of(items.last())) }
}

/// Mapping pairs as plain values.
pub open spec fn pairs_view(pairs: Seq<MappingPair>) -> Seq<(NodeView, NodeView)>
    decreases pairs, 0nat
{
    if pairs.len() == 0 {
        Seq::empty()
    } else {
        pairs_view(pairs.drop_last()).push((view_of(pairs.last().key), view_of(pairs.last().value)))
    }
}

#[via_fn]
proof fn view_decreases(n: Node) {
    match n {
        Node::Anchor(a) => {
            assert(decreases_to!(n => a));
            assert(decreases_to!(a => a.node));
        },
        Node::Tagged(t) => {
            assert(decreases_to!(n => t));
            assert(decreases_to!(t => t.node));
        },
        Node::Sequence(s) => {
            assert(decreases_to!(n => s));
            assert(decreases_to!(s => s.items));
            assert(decreases_to!(s.items => s.items@));
        },
        Node::Mapping(m) => {
            assert(decreases_to!(n => m));
            assert(decreases_to!(m => m.pairs));
            assert(decreases_to!(m.pairs => m.pairs@));
        },
        _ => {},
    }
}

/// One more item extends the items' view by its view.
pub proof fn lemma_items_view_push(items: Seq<Node>, n: Node)
    ensures
        items_view(items.push(n)) == items_view(items).push(view_of(n)),
{
    assert(items.push(n).drop_last() =~= items);
}

/// One more pair extends the pairs' view by its view.
pub proof fn lemma_pairs_view_push(pairs: Seq<MappingPair>, p: MappingPair)
    ensures
        pairs_view(pairs.push(p)) == pairs_view(pairs).push((view_of(p.key), view_of(p.value))),
{
    assert(pairs.push(p).drop_last() =~= pairs);
}

/// A run's view has one entry per item.
pub proof fn lemma_items_view_len(items: Seq<Node>)
    ensures
        items_view(items).len() == items.len(),
    decreases items.len(),
{
    if items.len() > 0 {
        lemma_items_view_len(items.drop_last());
    }
}

/// A run of pairs' view has one entry per pair.
pub proof fn lemma_pairs_view_len(pairs: Seq<MappingPair>)
    ensures
        pairs_view(pairs).len() == pairs.len(),
    decreases pairs.len(),
{
    if pairs.len() > 0 {
        lemma_pairs_view_len(pairs.drop_last());
    }
}

} // verus!
