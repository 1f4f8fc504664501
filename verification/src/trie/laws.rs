use vstd::prelude::*;
use crate::trie::lemmas::{
    lemma_child_wf,
    lemma_detached,
    lemma_empty,
    lemma_planted,
    lemma_planted_detached,
    lemma_with_child_other,
    lemma_with_child_wf,
};
use crate::trie::model::{Node, Part};

verus! {

/// Weight additivity. A subtrie grafted at an address where the trie holds
/// nothing raises the weight of the trie by exactly its own weight, and
/// detaching it again restores the weight.
pub proof fn law_weight_additive<V>(trie: Node<V>, path: Seq<Seq<char>>, sub: Node<V>)
    requires
        trie.wf(),
        sub.wf(),
        trie.at(path).is_empty(),
    ensures
        trie.planted(path, sub).weight() == trie.weight() + sub.weight(),
        trie.planted(path, sub).detached(path).weight() == trie.weight(),
{
    lemma_empty(trie.at(path));
    lemma_planted(trie, path, sub);
    lemma_planted_detached(trie, path, sub);
    assert(trie.planted(path, sub).sum(Part::Whole) == trie.sum(Part::Whole) + sub.sum(
        Part::Whole,
    ));
}

/// Grafting and detaching are inverse. After a subtrie is grafted at an
/// address where the trie holds nothing, the trie holds exactly that
/// subtrie at the address, and detaching it gives back the trie as it was.
/// Detaching hands out what the trie held, so it hands out the subtrie,
/// unless the subtrie is empty and there is nothing to hand out.
pub proof fn law_insert_remove_inverse<V>(trie: Node<V>, path: Seq<Seq<char>>, sub: Node<V>)
    requires
        trie.wf(),
        sub.wf(),
        trie.at(path).is_empty(),
    ensures
        !trie.at(path).clashes(sub),
        trie.planted(path, sub).wf(),
        trie.planted(path, sub).at(path) == sub,
        trie.planted(path, sub).detached(path) == trie,
{
    lemma_empty(trie.at(path));
    lemma_planted(trie, path, sub);
    lemma_planted_detached(trie, path, sub);
}

/// Observation lookup. After a value is observed at an address whose
/// position was free, the node at the address carries that value. Where
/// the trie held nothing at all at the address, the node is the leaf of
/// the value and the weight.
pub proof fn law_observe_then_search<V>(
    trie: Node<V>,
    path: Seq<Seq<char>>,
    value: V,
    weight: int,
)
    requires
        trie.wf(),
        !trie.at(path).occupied(),
    ensures
        !trie.at(path).clashes(Node::leaf(value, weight)),
        trie.planted(path, Node::leaf(value, weight)).at(path).value == Some(value),
        trie.planted(path, Node::leaf(value, weight)).at(path).own == weight,
        trie.planted(path, Node::leaf(value, weight)).at(path).kids == trie.at(path).kids,
        trie.at(path).is_empty() ==> trie.planted(path, Node::leaf(value, weight)).at(path)
            == Node::leaf(value, weight),
{
    let leaf = Node::leaf(value, weight);
    lemma_empty(Node::<V>::empty());
    assert(leaf.wf());
    lemma_planted(trie, path, leaf);
    if trie.at(path).is_empty() {
        lemma_planted_detached(trie, path, leaf);
    }
}

/// Occupied writes fail. After a value is observed at an address, every
/// further observation at that address clashes with it.
pub proof fn law_second_observe_clashes<V>(
    trie: Node<V>,
    path: Seq<Seq<char>>,
    value: V,
    weight: int,
    second_value: V,
    second_weight: int,
)
    requires
        trie.wf(),
        !trie.at(path).occupied(),
    ensures
        trie.planted(path, Node::leaf(value, weight)).at(path).occupied(),
        trie.planted(path, Node::leaf(value, weight)).at(path).clashes(
            Node::leaf(second_value, second_weight),
        ),
{
    law_observe_then_search(trie, path, value, weight);
}

/// Whether two paths part: at some position they hold different segments,
/// having held the same before it.
pub open spec fn parted(path: Seq<Seq<char>>, other: Seq<Seq<char>>) -> bool
    decreases path.len(),
{
    path.len() > 0 && other.len() > 0 && (path[0] != other[0] || parted(
        path.drop_first(),
        other.drop_first(),
    ))
}

/// Grafting is local. What the trie holds at an address is not changed by
/// a graft at an address that parts from it.
pub proof fn law_planted_apart<V>(
    trie: Node<V>,
    path: Seq<Seq<char>>,
    patch: Node<V>,
    other: Seq<Seq<char>>,
)
    requires
        trie.wf(),
        patch.wf(),
        !trie.at(path).clashes(patch),
        parted(path, other),
    ensures
        trie.planted(path, patch).at(other) == trie.at(other),
    decreases path.len(),
{
    let key = path[0];
    let child = trie.child(key);
    let grown = child.planted(path.drop_first(), patch);
    lemma_child_wf(trie, key);
    lemma_planted(child, path.drop_first(), patch);
    if key != other[0] {
        lemma_with_child_other(trie, key, grown, other[0]);
    } else {
        lemma_with_child_wf(trie, key, grown);
        law_planted_apart(child, path.drop_first(), patch, other.drop_first());
    }
}

/// Detaching is local. What the trie holds at an address is not changed
/// by detaching at an address that parts from it.
pub proof fn law_detached_apart<V>(trie: Node<V>, path: Seq<Seq<char>>, other: Seq<Seq<char>>)
    requires
        trie.wf(),
        parted(path, other),
    ensures
        trie.detached(path).at(other) == trie.at(other),
    decreases path.len(),
{
    let key = path[0];
    let child = trie.child(key);
    let shrunk = child.detached(path.drop_first());
    lemma_child_wf(trie, key);
    lemma_detached(child, path.drop_first());
    if key != other[0] {
        lemma_with_child_other(trie, key, shrunk, other[0]);
    } else {
        lemma_with_child_wf(trie, key, shrunk);
        law_detached_apart(child, path.drop_first(), other.drop_first());
    }
}

} // verus!
