//! Whole-tree queries: the anchors and aliases a tree names, its nesting depth, and its
//! node count.
use vstd::prelude::*;
use crate::parser::ast::{Node, MappingPair};

verus! {

/// The anchor names of a tree, in pre-order.
pub open spec fn anchors_of(n: Node) -> Seq<Seq<char>>
    decreases n, 1nat
    via anchors_decreases
{
    match n {
        Node::Anchor(a) => seq![a.name@] + anchors_of(*a.node),
        Node::Sequence(s) => item_anchors(s.items@),
        Node::Mapping(m) => pair_anchors(m.pairs@),
        Node::Tagged(t) => anchors_of(*t.node),
        _ => Seq::empty(),
    }
}

/// The anchor names of a run of items, in order.
pub open spec fn item_anchors(items: Seq<Node>) -> Seq<Seq<char>>
    decreases items, 0nat
{
    if items.len() == 0 { Seq::empty() } else { item_anchors(items.drop_last()) + anchors_of(items.last()) }
}

/// The anchor names of a run of mapping pairs, key before value.
pub open spec fn pair_anchors(pairs: Seq<MappingPair>) -> Seq<Seq<char>>
    decreases pairs, 0nat
{
    if pairs.len() == 0 {
        Seq::empty()
    } else {
        pair_anchors(pairs.drop_last()) + anchors_of(pairs.last().key) + anchors_of(pairs.last().value)
    }
}

#[via_fn]
proof fn anchors_decreases(n: Node) {
    lemma_children_decrease(n);
}

/// The alias names of a tree, in pre-order.
pub open spec fn aliases_of(n: Node) -> Seq<Seq<char>>
    decreases n, 1nat
    via aliases_decreases
{
    match n {
        Node::Alias(a) => seq![a.name@],
        Node::Anchor(a) => aliases_of(*a.node),
        Node::Sequence(s) => item_aliases(s.items@),
        Node::Mapping(m) => pair_aliases(m.pairs@),
        Node::Tagged(t) => aliases_of(*t.node),
        _ => Seq::empty(),
    }
}

/// The alias names of a run of items, in order.
pub open spec fn item_aliases(items: Seq<Node>) -> Seq<Seq<char>>
    decreases items, 0nat
{
    if items.len() == 0 { Seq::empty() } else { item_aliases(items.drop_last()) + aliases_of(items.last()) }
}

/// The alias names of a run of mapping pairs, key before value.
pub open spec fn pair_aliases(pairs: Seq<MappingPair>) -> Seq<Seq<char>>
    decreases pairs, 0nat
{
    if pairs.len() == 0 {
        Seq::empty()
    } else {
        pair_aliases(pairs.drop_last()) + aliases_of(pairs.last().key) + aliases_of(pairs.last().value)
    }
}

#[via_fn]
proof fn aliases_decreases(n: Node) {
    lemma_children_decrease(n);
}

/// The nesting depth of a tree: each sequence or mapping adds one level; anchors and tags
/// add none.
pub open spec fn depth_of(n: Node) -> nat
    decreases n, 1nat
    via depth_decreases
{
    match n {
        Node::Anchor(a) => depth_of(*a.node),
        Node::Tagged(t) => depth_of(*t.node),
        Node::Sequence(s) => 1 + item_depth(s.items@),
        Node::Mapping(m) => 1 + pair_depth(m.pairs@),
        _ => 0,
    }
}

/// The greatest depth among items (zero for none).
pub open spec fn item_depth(items: Seq<Node>) -> nat
    decreases items, 0nat
{
    if items.len() == 0 {
        0
    } else {
        let a = item_depth(items.drop_last());
        let b = depth_of(items.last());
        if a >= b { a } else { b }
    }
}

/// The greatest depth among the keys and values of pairs (zero for none).
pub open spec fn pair_depth(pairs: Seq<MappingPair>) -> nat
    decreases pairs, 0nat
{
    if pairs.len() == 0 {
        0
    } else {
        let a = pair_depth(pairs.drop_last());
        let k = depth_of(pairs.last().key);
        let v = depth_of(pairs.last().value);
        let b = if k >= v { k } else { v };
        if a >= b { a } else { b }
    }
}

#[via_fn]
proof fn depth_decreases(n: Node) {
    lemma_children_decrease(n);
}

/// The number of nodes of a tree, anchors and tags counted as nodes of their own.
pub open spec fn count_of(n: Node) -> nat
    decreases n, 1nat
    via count_decreases
{
    match n {
        Node::Anchor(a) => 1 + count_of(*a.node),
        Node::Tagged(t) => 1 + count_of(*t.node),
        Node::Sequence(s) => 1 + item_count(s.items@),
        Node::Mapping(m) => 1 + pair_count(m.pairs@),
        _ => 1,
    }
}

/// The number of nodes of a run of items.
pub open spec fn item_count(items: Seq<Node>) -> nat
    decreases items, 0nat
{
    if items.len() == 0 { 0 } else { item_count(items.drop_last()) + count_of(items.last()) }
}

/// The number of nodes of a run of pairs, keys and values both.
pub open spec fn pair_count(pairs: Seq<MappingPair>) -> nat
    decreases pairs, 0nat
{
    if pairs.len() == 0 {
        0
    } else {
        pair_count(pairs.drop_last()) + count_of(pairs.last().key) + count_of(pairs.last().value)
    }
}

#[via_fn]
proof fn count_decreases(n: Node) {
    lemma_children_decrease(n);
}

/// The children of a node lie below it in the order recursion descends.
proof fn lemma_children_decrease(n: Node)
    ensures
        n matches Node::Anchor(a) ==> decreases_to!(n => *a.node),
        n matches Node::Tagged(t) ==> decreases_to!(n => *t.node),
        n matches Node::Sequence(s) ==> decreases_to!(n => s.items@),
        n matches Node::Mapping(m) ==> decreases_to!(n => m.pairs@),
{
    match n {
        Node::Anchor(a) => {
            assert(decreases_to!(n => a));
            assert(decreases_to!(a => a.node));
        },
        Node::Tagged(t) => {
            assert(decreases_to!(n => t));
            assert(decreases_to!(t => t.node));
        },
        Node::Sequence(s) => {
            assert(decreases_to!(n => s));
            assert(decreases_to!(s => s.items));
            assert(decreases_to!(s.items => s.items@));
        },
        Node::Mapping(m) => {
            assert(decreases_to!(n => m));
            assert(decreases_to!(m => m.pairs));
            assert(decreases_to!(m.pairs => m.pairs@));
        },
        _ => {},
    }
}

/// An item of a run lies below the run, and so do the key and value of a pair.
proof fn lemma_element_decrease(items: Seq<Node>, pairs: Seq<MappingPair>, i: int)
    ensures
        0 <= i < items.len() ==> decreases_to!(items => items[i]),
        0 <= i < pairs.len() ==> decreases_to!(pairs => pairs[i].key),
        0 <= i < pairs.len() ==> decreases_to!(pairs => pairs[i].value),
{
    if 0 <= i < pairs.len() {
        assert(decreases_to!(pairs => pairs[i]));
        assert(decreases_to!(pairs[i] => pairs[i].key));
        assert(decreases_to!(pairs[i] => pairs[i].value));
    }
}

/// Collect all anchor names in a tree, in pre-order (`anchors_of`).
pub fn collect_anchors<'a>(node: &'a Node) -> (r: Vec<&'a str>)
    ensures
        r@.map_values(|s: &str| s@) == anchors_of(*node),
{
    let mut anchors: Vec<&'a str> = Vec::new();
    proof { assert(anchors@.map_values(|s: &str| s@) =~= Seq::<Seq<char>>::empty()); }
    collect_anchors_recursive(node, &mut anchors);
    proof { assert(Seq::<Seq<char>>::empty() + anchors_of(*node) =~= anchors_of(*node)); }
    anchors
}

fn collect_anchors_recursive<'a>(node: &'a Node, anchors: &mut Vec<&'a str>)
    ensures
        final(anchors)@.map_values(|s: &str| s@) == old(anchors)@.map_values(|s: &str| s@) + anchors_of(*node),
    decreases *node,
{
    proof { lemma_children_decrease(*node); }
    match node {
        Node::Anchor(anchor) => {
            let ghost a0 = anchors@.map_values(|s: &str| s@);
            anchors.push(anchor.name.as_str());
            proof { assert(anchors@.map_values(|s: &str| s@) =~= a0.push(anchor.name@)); }
            collect_anchors_recursive(&anchor.node, anchors);
            proof { assert(a0.push(anchor.name@) + anchors_of(*anchor.node) =~= a0 + (seq![anchor.name@] + anchors_of(*anchor.node))); }
        },
        Node::Sequence(seq) => {
            let ghost a0 = anchors@.map_values(|s: &str| s@);
            let mut i: usize = 0;
            proof { assert(seq.items@.take(0) =~= Seq::<Node>::empty()); assert(a0 + Seq::<Seq<char>>::empty() =~= a0); }
            while i < seq.items.len()
                invariant
                    i <= seq.items@.len(),
                    decreases_to!(*node => seq.items@),
                    anchors@.map_values(|s: &str| s@) == a0 + item_anchors(seq.items@.take(i as int)),
                decreases seq.items@.len() - i,
            {
                proof {
                    lemma_element_decrease(seq.items@, Seq::empty(), i as int);
                    assert(seq.items@.take(i + 1).drop_last() =~= seq.items@.take(i as int));
                }
                collect_anchors_recursive(&seq.items[i], anchors);
                proof { assert(a0 + item_anchors(seq.items@.take(i as int)) + anchors_of(seq.items@[i as int]) =~= a0 + item_anchors(seq.items@.take(i + 1))); }
                i = i + 1;
            }
            proof { assert(seq.items@.take(seq.items@.len() as int) =~= seq.items@); }
        },
        Node::Mapping(map) => {
            let ghost a0 = anchors@.map_values(|s: &str| s@);
            let mut i: usize = 0;
            proof { assert(map.pairs@.take(0) =~= Seq::<MappingPair>::empty()); assert(a0 + Seq::<Seq<char>>::empty() =~= a0); }
            while i < map.pairs.len()
                invariant
                    i <= map.pairs@.len(),
                    decreases_to!(*node => map.pairs@),
                    anchors@.map_values(|s: &str| s@) == a0 + pair_anchors(map.pairs@.take(i as int)),
                decreases map.pairs@.len() - i,
            {
                proof {
                    lemma_element_decrease(Seq::empty(), map.pairs@, i as int);
                    assert(map.pairs@.take(i + 1).drop_last() =~= map.pairs@.take(i as int));
                }
                let pair = &map.pairs[i];
                collect_anchors_recursive(&pair.key, anchors);
                collect_anchors_recursive(&pair.value, anchors);
                proof {
                    assert(a0 + pair_anchors(map.pairs@.take(i as int)) + anchors_of(pair.key) + anchors_of(pair.value)
                        =~= a0 + pair_anchors(map.pairs@.take(i + 1)));
                }
                i = i + 1;
            }
            proof { assert(map.pairs@.take(map.pairs@.len() as int) =~= map.pairs@); }
        },
        Node::Tagged(tagged) => {
            collect_anchors_recursive(&tagged.node, anchors);
        },
        _ => {
            proof { assert(anchors@.map_values(|s: &str| s@) =~= anchors@.map_values(|s: &str| s@) + Seq::<Seq<char>>::empty()); }
        },
    }
}

/// Collect all alias names in a tree, in pre-order (`aliases_of`).
pub fn collect_aliases<'a>(node: &'a Node) -> (r: Vec<&'a str>)
    ensures
        r@.map_values(|s: &str| s@) == aliases_of(*node),
{
    let mut aliases: Vec<&'a str> = Vec::new();
    proof { assert(aliases@.map_values(|s: &str| s@) =~= Seq::<Seq<char>>::empty()); }
    collect_aliases_recursive(node, &mut aliases);
    proof { assert(Seq::<Seq<char>>::empty() + aliases_of(*node) =~= aliases_of(*node)); }
    aliases
}

fn collect_aliases_recursive<'a>(node: &'a Node, aliases: &mut Vec<&'a str>)
    ensures
        final(aliases)@.map_values(|s: &str| s@) == old(aliases)@.map_values(|s: &str| s@) + aliases_of(*node),
    decreases *node,
{
    proof { lemma_children_decrease(*node); }
    match node {
        Node::Alias(alias) => {
            let ghost a0 = aliases@.map_values(|s: &str| s@);
            aliases.push(alias.name.as_str());
            proof { assert(aliases@.map_values(|s: &str| s@) =~= a0 + seq![alias.name@]); }
        },
        Node::Anchor(anchor) => {
            collect_aliases_recursive(&anchor.node, aliases);
        },
        Node::Sequence(seq) => {
            let ghost a0 = aliases@.map_values(|s: &str| s@);
            let mut i: usize = 0;
            proof { assert(seq.items@.take(0) =~= Seq::<Node>::empty()); assert(a0 + Seq::<Seq<char>>::empty() =~= a0); }
            while i < seq.items.len()
                invariant
                    i <= seq.items@.len(),
                    decreases_to!(*node => seq.items@),
                    aliases@.map_values(|s: &str| s@) == a0 + item_aliases(seq.items@.take(i as int)),
                decreases seq.items@.len() - i,
            {
                proof {
                    lemma_element_decrease(seq.items@, Seq::empty(), i as int);
                    assert(seq.items@.take(i + 1).drop_last() =~= seq.items@.take(i as int));
                }
                collect_aliases_recursive(&seq.items[i], aliases);
                proof { assert(a0 + item_aliases(seq.items@.take(i as int)) + aliases_of(seq.items@[i as int]) =~= a0 + item_aliases(seq.items@.take(i + 1))); }
                i = i + 1;
            }
            proof { assert(seq.items@.take(seq.items@.len() as int) =~= seq.items@); }
        },
        Node::Mapping(map) => {
            let ghost a0 = aliases@.map_values(|s: &str| s@);
            let mut i: usize = 0;
            proof { assert(map.pairs@.take(0) =~= Seq::<MappingPair>::empty()); assert(a0 + Seq::<Seq<char>>::empty() =~= a0); }
            while i < map.pairs.len()
                invariant
                    i <= map.pairs@.len(),
                    decreases_to!(*node => map.pairs@),
                    aliases@.map_values(|s: &str| s@) == a0 + pair_aliases(map.pairs@.take(i as int)),
                decreases map.pairs@.len() - i,
            {
                proof {
                    lemma_element_decrease(Seq::empty(), map.pairs@, i as int);
                    assert(map.pairs@.take(i + 1).drop_last() =~= map.pairs@.take(i as int));
                }
                let pair = &map.pairs[i];
                collect_aliases_recursive(&pair.key, aliases);
                collect_aliases_recursive(&pair.value, aliases);
                proof {
                    assert(a0 + pair_aliases(map.pairs@.take(i as int)) + aliases_of(pair.key) + aliases_of(pair.value)
                        =~= a0 + pair_aliases(map.pairs@.take(i + 1)));
                }
                i = i + 1;
            }
            proof { assert(map.pairs@.take(map.pairs@.len() as int) =~= map.pairs@); }
        },
        Node::Tagged(tagged) => {
            collect_aliases_recursive(&tagged.node, aliases);
        },
        _ => {
            proof { assert(aliases@.map_values(|s: &str| s@) =~= aliases@.map_values(|s: &str| s@) + Seq::<Seq<char>>::empty()); }
        },
    }
}

/// Calculate the depth of nesting in a tree (`depth_of`).
pub fn calculate_depth(node: &Node) -> (d: usize)
    requires
        depth_of(*node) <= usize::MAX,
    ensures
        d == depth_of(*node),
    decreases *node,
{
    proof { lemma_children_decrease(*node); }
    match node {
        Node::Anchor(anchor) => calculate_depth(&anchor.node),
        Node::Tagged(tagged) => calculate_depth(&tagged.node),
        Node::Sequence(seq) => {
            let mut best: usize = 0;
            let mut i: usize = 0;
            proof { assert(seq.items@.take(0) =~= Seq::<Node>::empty()); }
            while i < seq.items.len()
                invariant
                    i <= seq.items@.len(),
                    decreases_to!(*node => seq.items@),
                    1 + item_depth(seq.items@) <= usize::MAX,
                    best == item_depth(seq.items@.take(i as int)),
                decreases seq.items@.len() - i,
            {
                proof {
                    lemma_element_decrease(seq.items@, Seq::empty(), i as int);
                    assert(seq.items@.take(i + 1).drop_last() =~= seq.items@.take(i as int));
                    lemma_item_depth_bound(seq.items@, i as int);
                }
                let d = calculate_depth(&seq.items[i]);
                if d > best {
                    best = d;
                }
                i = i + 1;
            }
            proof { assert(seq.items@.take(seq.items@.len() as int) =~= seq.items@); }
            1 + best
        },
        Node::Mapping(map) => {
            let mut best: usize = 0;
            let mut i: usize = 0;
            proof { assert(map.pairs@.take(0) =~= Seq::<MappingPair>::empty()); }
            while i < map.pairs.len()
                invariant
                    i <= map.pairs@.len(),
                    decreases_to!(*node => map.pairs@),
                    1 + pair_depth(map.pairs@) <= usize::MAX,
                    best == pair_depth(map.pairs@.take(i as int)),
                decreases map.pairs@.len() - i,
            {
                proof {
                    lemma_element_decrease(Seq::empty(), map.pairs@, i as int);
                    assert(map.pairs@.take(i + 1).drop_last() =~= map.pairs@.take(i as int));
                    lemma_pair_depth_bound(map.pairs@, i as int);
                }
                let pair = &map.pairs[i];
                let k = calculate_depth(&pair.key);
                let v = calculate_depth(&pair.value);
                let m = if k >= v { k } else { v };
                if m > best {
                    best = m;
                }
                i = i + 1;
            }
            proof { assert(map.pairs@.take(map.pairs@.len() as int) =~= map.pairs@); }
            1 + best
        },
        _ => 0,
    }
}

/// Each item of a run is no deeper than the run, and no prefix is deeper either.
proof fn lemma_item_depth_bound(items: Seq<Node>, i: int)
    requires
        0 <= i < items.len(),
    ensures
        depth_of(items[i]) <= item_depth(items),
        item_depth(items.take(i)) <= item_depth(items),
    decreases items.len(),
{
    if i < items.len() - 1 {
        lemma_item_depth_bound(items.drop_last(), i);
        assert(items.drop_last()[i] == items[i]);
        assert(items.drop_last().take(i) =~= items.take(i));
    } else {
        assert(items.drop_last() =~= items.take(i));
    }
}

/// Each key and value of a run of pairs is no deeper than the run, and no prefix is deeper
/// either.
proof fn lemma_pair_depth_bound(pairs: Seq<MappingPair>, i: int)
    requires
        0 <= i < pairs.len(),
    ensures
        depth_of(pairs[i].key) <= pair_depth(pairs),
        depth_of(pairs[i].value) <= pair_depth(pairs),
        pair_depth(pairs.take(i)) <= pair_depth(pairs),
    decreases pairs.len(),
{
    if i < pairs.len() - 1 {
        lemma_pair_depth_bound(pairs.drop_last(), i);
        assert(pairs.drop_last()[i] == pairs[i]);
        assert(pairs.drop_last().take(i) =~= pairs.take(i));
    } else {
        assert(pairs.drop_last() =~= pairs.take(i));
    }
}

/// Count the nodes of a tree (`count_of`).
pub fn count_nodes(node: &Node) -> (c: usize)
    requires
        count_of(*node) <= usize::MAX,
    ensures
        c == count_of(*node),
    decreases *node,
{
    proof { lemma_children_decrease(*node); }
    match node {
        Node::Anchor(anchor) => 1 + count_nodes(&anchor.node),
        Node::Tagged(tagged) => 1 + count_nodes(&tagged.node),
        Node::Sequence(seq) => {
            let mut total: usize = 0;
            let mut i: usize = 0;
            proof { assert(seq.items@.take(0) =~= Seq::<Node>::empty()); }
            while i < seq.items.len()
                invariant
                    i <= seq.items@.len(),
                    decreases_to!(*node => seq.items@),
                    1 + item_count(seq.items@) <= usize::MAX,
                    total == item_count(seq.items@.take(i as int)),
                decreases seq.items@.len() - i,
            {
                proof {
                    lemma_element_decrease(seq.items@, Seq::empty(), i as int);
                    assert(seq.items@.take(i + 1).drop_last() =~= seq.items@.take(i as int));
                    lemma_item_count_prefix(seq.items@, i + 1);
                }
                let c = count_nodes(&seq.items[i]);
                total = total + c;
                i = i + 1;
            }
            proof { assert(seq.items@.take(seq.items@.len() as int) =~= seq.items@); }
            1 + total
        },
        Node::Mapping(map) => {
            let mut total: usize = 0;
            let mut i: usize = 0;
            proof { assert(map.pairs@.take(0) =~= Seq::<MappingPair>::empty()); }
            while i < map.pairs.len()
                invariant
                    i <= map.pairs@.len(),
                    decreases_to!(*node => map.pairs@),
                    1 + pair_count(map.pairs@) <= usize::MAX,
                    total == pair_count(map.pairs@.take(i as int)),
                decreases map.pairs@.len() - i,
            {
                proof {
                    lemma_element_decrease(Seq::empty(), map.pairs@, i as int);
                    assert(map.pairs@.take(i + 1).drop_last() =~= map.pairs@.take(i as int));
                    lemma_pair_count_prefix(map.pairs@, i + 1);
                }
                let pair = &map.pairs[i];
                let k = count_nodes(&pair.key);
                let v = count_nodes(&pair.value);
                total = total + k + v;
                i = i + 1;
            }
            proof { assert(map.pairs@.take(map.pairs@.len() as int) =~= map.pairs@); }
            1 + total
        },
        _ => 1,
    }
}

/// A prefix of a run of items counts no more nodes than the run.
proof fn lemma_item_count_prefix(items: Seq<Node>, i: int)
    requires
        0 <= i <= items.len(),
    ensures
        item_count(items.take(i)) <= item_count(items),
    decreases items.len(),
{
    if i < items.len() {
        lemma_item_count_prefix(items.drop_last(), i);
        assert(items.drop_last().take(i) =~= items.take(i));
    } else {
        assert(items.take(i) =~= items);
    }
}

/// A prefix of a run of pairs counts no more nodes than the run.
proof fn lemma_pair_count_prefix(pairs: Seq<MappingPair>, i: int)
    requires
        0 <= i <= pairs.len(),
    ensures
        pair_count(pairs.take(i)) <= pair_count(pairs),
    decreases pairs.len(),
{
    if i < pairs.len() {
        lemma_pair_count_prefix(pairs.drop_last(), i);
        assert(pairs.drop_last().take(i) =~= pairs.take(i));
    } else {
        assert(pairs.take(i) =~= pairs);
    }
}

} // verus!
