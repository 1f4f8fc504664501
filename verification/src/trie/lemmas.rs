use vstd::prelude::*;
use crate::trie::model::{ascending, kids_sum, rank, Node, Part};
use crate::trie::order::{
    key_lt,
    lemma_key_lt_asymmetric,
    lemma_key_lt_irreflexive,
    lemma_key_lt_total,
    lemma_key_lt_transitive,
};

verus! {

/// What `rank` finds: every key before it comes before `key`, and the key
/// at it, if there is one, does not.
pub proof fn lemma_rank<V>(kids: Seq<(Seq<char>, Node<V>)>, key: Seq<char>)
    ensures
        rank(kids, key) <= kids.len(),
        forall|i: int| 0 <= i < rank(kids, key) ==> key_lt((#[trigger] kids[i]).0, key),
        rank(kids, key) < kids.len() ==> !key_lt(kids[rank(kids, key) as int].0, key),
    decreases kids.len(),
{
    if kids.len() > 0 && key_lt(kids[0].0, key) {
        let rest = kids.drop_first();
        lemma_rank(rest, key);
        assert forall|i: int| 0 <= i < rank(kids, key) implies key_lt(
            (#[trigger] kids[i]).0,
            key,
        ) by {
            if i > 0 {
                assert(kids[i] == rest[i - 1]);
            }
        }
    }
}

/// A position with the two properties of `lemma_rank` is the rank.
pub proof fn lemma_rank_is<V>(kids: Seq<(Seq<char>, Node<V>)>, key: Seq<char>, r: int)
    requires
        0 <= r <= kids.len(),
        forall|i: int| 0 <= i < r ==> key_lt((#[trigger] kids[i]).0, key),
        r < kids.len() ==> !key_lt(kids[r].0, key),
    ensures
        rank(kids, key) == r,
    decreases r,
{
    if r > 0 {
        let rest = kids.drop_first();
        assert(key_lt(kids[0].0, key));
        assert forall|i: int| 0 <= i < r - 1 implies key_lt((#[trigger] rest[i]).0, key) by {
            assert(rest[i] == kids[i + 1]);
        }
        lemma_rank_is(rest, key, r - 1);
    }
}

/// Among ascending keys, a key that occurs stands at its rank, and every
/// entry after the rank comes after `key`.
pub proof fn lemma_rank_ascending<V>(kids: Seq<(Seq<char>, Node<V>)>, key: Seq<char>)
    requires
        ascending(kids),
    ensures
        forall|i: int| 0 <= i < kids.len() && (#[trigger] kids[i]).0 == key ==> rank(kids, key) == i,
        forall|i: int|
            rank(kids, key) < i < kids.len() ==> key_lt(key, (#[trigger] kids[i]).0),
        rank(kids, key) < kids.len() && kids[rank(kids, key) as int].0 != key ==> key_lt(
            key,
            kids[rank(kids, key) as int].0,
        ),
{
    lemma_rank(kids, key);
    let r = rank(kids, key) as int;
    assert forall|i: int| 0 <= i < kids.len() && (#[trigger] kids[i]).0 == key implies rank(
        kids,
        key,
    ) == i by {
        lemma_key_lt_irreflexive(key);
        assert forall|j: int| 0 <= j < i implies key_lt((#[trigger] kids[j]).0, key) by {}
        lemma_rank_is(kids, key, i);
    }
    if r < kids.len() {
        if kids[r].0 != key {
            if !key_lt(key, kids[r].0) {
                lemma_key_lt_total(key, kids[r].0);
            }
        }
        assert forall|i: int| r < i < kids.len() implies key_lt(key, (#[trigger] kids[i]).0) by {
            assert(key_lt(kids[r].0, kids[i].0));
            if kids[r].0 != key {
                lemma_key_lt_transitive(key, kids[r].0, kids[i].0);
            }
        }
    }
}

/// An entry put among `kids` adds its sum to theirs.
pub proof fn lemma_kids_sum_insert<V>(
    kids: Seq<(Seq<char>, Node<V>)>,
    i: int,
    entry: (Seq<char>, Node<V>),
    p: Part,
)
    requires
        0 <= i <= kids.len(),
    ensures
        kids_sum(kids.insert(i, entry), p) == kids_sum(kids, p) + entry.1.sum(p),
    decreases kids.len(),
{
    let more = kids.insert(i, entry);
    if i == kids.len() {
        assert(more.drop_last() == kids);
        assert(more.last() == entry);
    } else {
        assert(more.drop_last() == kids.drop_last().insert(i, entry));
        assert(more.last() == kids.last());
        lemma_kids_sum_insert(kids.drop_last(), i, entry, p);
    }
}

/// An entry taken from `kids` takes its sum from theirs.
pub proof fn lemma_kids_sum_remove<V>(kids: Seq<(Seq<char>, Node<V>)>, i: int, p: Part)
    requires
        0 <= i < kids.len(),
    ensures
        kids_sum(kids.remove(i), p) == kids_sum(kids, p) - kids[i].1.sum(p),
{
    let fewer = kids.remove(i);
    assert(fewer.insert(i, kids[i]) == kids);
    lemma_kids_sum_insert(fewer, i, kids[i], p);
}

/// The gains of a trie are not negative, its losses not positive, and
/// together they are its weight.
pub proof fn lemma_sum_signs<V>(node: Node<V>)
    ensures
        node.gain() >= 0,
        node.loss() <= 0,
        node.weight() == node.gain() + node.loss(),
    decreases node,
{
    lemma_kids_sum_signs(node.kids);
}

/// The sums over children: the gains are not negative, the losses not
/// positive, and together they are the weight.
pub proof fn lemma_kids_sum_signs<V>(kids: Seq<(Seq<char>, Node<V>)>)
    ensures
        kids_sum(kids, Part::Gain) >= 0,
        kids_sum(kids, Part::Loss) <= 0,
        kids_sum(kids, Part::Whole) == kids_sum(kids, Part::Gain) + kids_sum(kids, Part::Loss),
    decreases kids,
{
    if kids.len() > 0 {
        lemma_kids_sum_signs(kids.drop_last());
        lemma_sum_signs(kids.last().1);
    }
}

/// Among ascending keys, the child under the key of an entry is that
/// entry's node.
pub proof fn lemma_child_at<V>(node: Node<V>, i: int)
    requires
        ascending(node.kids),
        0 <= i < node.kids.len(),
    ensures
        node.has_child(node.kids[i].0),
        node.child(node.kids[i].0) == node.kids[i].1,
{
    lemma_rank_ascending(node.kids, node.kids[i].0);
}

/// The empty node is well formed and all its sums are zero.
pub proof fn lemma_empty<V>(node: Node<V>)
    requires
        node.is_empty(),
    ensures
        node == Node::<V>::empty(),
        node.wf(),
        forall|p: Part| #[trigger] node.sum(p) == 0,
{
    assert(node.kids =~= Seq::empty());
}

/// The entries of a node other than the one under `key`: they ascend,
/// none of them has the key `key`, and `key` has among them the rank it
/// had.
proof fn lemma_others<V>(node: Node<V>, key: Seq<char>) -> (others: Seq<(Seq<char>, Node<V>)>)
    requires
        ascending(node.kids),
    ensures
        others == if node.has_child(key) {
            node.kids.remove(rank(node.kids, key) as int)
        } else {
            node.kids
        },
        ascending(others),
        rank(others, key) == rank(node.kids, key),
        rank(others, key) <= others.len(),
        forall|i: int| 0 <= i < rank(others, key) ==> key_lt((#[trigger] others[i]).0, key),
        forall|i: int|
            rank(others, key) <= i < others.len() ==> key_lt(key, (#[trigger] others[i]).0),
        forall|p: Part|
            kids_sum(others, p) == kids_sum(node.kids, p) - (#[trigger] node.child(key).sum(p)),
{
    let kids = node.kids;
    let r = rank(kids, key) as int;
    lemma_rank(kids, key);
    lemma_rank_ascending(kids, key);
    if node.has_child(key) {
        let others = kids.remove(r);
        assert forall|i: int| r <= i < others.len() implies key_lt(
            key,
            (#[trigger] others[i]).0,
        ) by {
            assert(others[i] == kids[i + 1]);
        }
        assert forall|i: int| 0 <= i < r implies key_lt((#[trigger] others[i]).0, key) by {
            assert(others[i] == kids[i]);
        }
        assert forall|i: int, j: int| 0 <= i < j < others.len() implies key_lt(
            (#[trigger] others[i]).0,
            (#[trigger] others[j]).0,
        ) by {
            let a = if i < r {
                i
            } else {
                i + 1
            };
            let b = if j < r {
                j
            } else {
                j + 1
            };
            assert(others[i] == kids[a]);
            assert(others[j] == kids[b]);
        }
        if r < others.len() {
            lemma_key_lt_asymmetric(key, others[r].0);
        }
        lemma_rank_is(others, key, r);
        assert forall|p: Part|
            kids_sum(others, p) == kids_sum(kids, p) - (#[trigger] node.child(key).sum(p)) by {
            lemma_kids_sum_remove(kids, r, p);
        }
        others
    } else {
        lemma_empty(Node::<V>::empty());
        kids
    }
}

/// The node made by `with_child` is well formed and has `child` under
/// `key`.
pub proof fn lemma_with_child_wf<V>(node: Node<V>, key: Seq<char>, child: Node<V>)
    requires
        node.wf(),
        child.wf(),
    ensures
        node.with_child(key, child).wf(),
        node.with_child(key, child).child(key) == child,
{
    let r = rank(node.kids, key) as int;
    let others = lemma_others(node, key);
    let made = node.with_child(key, child);
    assert forall|i: int| 0 <= i < others.len() implies !(#[trigger] others[i]).1.is_empty()
        && others[i].1.wf() by {
        if node.has_child(key) && i >= r {
            assert(others[i] == node.kids[i + 1]);
        } else {
            assert(others[i] == node.kids[i]);
        }
    }
    if child.is_empty() {
        lemma_empty(child);
        assert(made.kids == others);
        if r < others.len() {
            lemma_key_lt_asymmetric(key, others[r].0);
        }
        assert(!made.has_child(key));
    } else {
        lemma_inserted(others, key, child, r);
        assert(made.kids == others.insert(r, (key, child)));
        assert(made.kids[r] == (key, child));
        assert forall|k: int| 0 <= k < made.kids.len() implies !(#[trigger] made.kids[k]).1.is_empty()
            && made.kids[k].1.wf() by {
            if k < r {
                assert(made.kids[k] == others[k]);
            } else if k > r {
                assert(made.kids[k] == others[k - 1]);
            }
        }
    }
}

/// An entry put at the rank of its key among ascending entries that do
/// not hold the key: the entries still ascend, and the key stands at that
/// rank.
proof fn lemma_inserted<V>(others: Seq<(Seq<char>, Node<V>)>, key: Seq<char>, child: Node<V>, r: int)
    requires
        ascending(others),
        0 <= r <= others.len(),
        forall|i: int| 0 <= i < r ==> key_lt((#[trigger] others[i]).0, key),
        forall|i: int| r <= i < others.len() ==> key_lt(key, (#[trigger] others[i]).0),
    ensures
        ascending(others.insert(r, (key, child))),
        rank(others.insert(r, (key, child)), key) == r,
        forall|i: int|
            0 <= i < others.len() ==> (#[trigger] others[i]) == others.insert(r, (key, child))[if i
                < r {
                i
            } else {
                i + 1
            }],
{
    let made = others.insert(r, (key, child));
    assert forall|i: int, j: int| 0 <= i < j < made.len() implies key_lt(
        (#[trigger] made[i]).0,
        (#[trigger] made[j]).0,
    ) by {
        if i < r && j > r {
            assert(made[i] == others[i]);
            assert(made[j] == others[j - 1]);
            lemma_key_lt_transitive(others[i].0, key, others[j - 1].0);
        } else if i < r && j == r {
            assert(made[i] == others[i]);
        } else if i < r {
            assert(made[i] == others[i]);
            assert(made[j] == others[j]);
        } else if i == r {
            assert(made[j] == others[j - 1]);
        } else {
            assert(made[i] == others[i - 1]);
            assert(made[j] == others[j - 1]);
        }
    }
    assert forall|i: int| 0 <= i < r implies key_lt((#[trigger] made[i]).0, key) by {
        assert(made[i] == others[i]);
    }
    lemma_key_lt_irreflexive(key);
    lemma_rank_is(made, key, r);
}

/// The node made by `with_child` has under every other key the child that
/// the node had there.
pub proof fn lemma_with_child_other<V>(
    node: Node<V>,
    key: Seq<char>,
    child: Node<V>,
    other: Seq<char>,
)
    requires
        node.wf(),
        child.wf(),
        other != key,
    ensures
        node.with_child(key, child).child(other) == node.child(other),
{
    let kids = node.kids;
    let r = rank(kids, key) as int;
    let others = lemma_others(node, key);
    let made = node.with_child(key, child);
    lemma_with_child_wf(node, key, child);
    lemma_rank(kids, key);
    if !child.is_empty() {
        lemma_inserted(others, key, child, r);
    }
    if node.has_child(other) {
        let j = rank(kids, other) as int;
        // where the entry stands among the others, and in what was made
        let i = if node.has_child(key) && j > r {
            j - 1
        } else {
            j
        };
        assert(others[i] == kids[j]);
        let k = if child.is_empty() || i < r {
            i
        } else {
            i + 1
        };
        assert(made.kids[k] == kids[j]);
        lemma_child_at(made, k);
    } else if made.has_child(other) {
        let k = rank(made.kids, other) as int;
        let i = if child.is_empty() || k < r {
            k
        } else {
            k - 1
        };
        assert(made.kids[k] == others[i]);
        let j = if node.has_child(key) && i >= r {
            i + 1
        } else {
            i
        };
        assert(others[i] == kids[j]);
        lemma_child_at(node, j);
    }
}

/// The sums of the node made by `with_child` differ from those of the
/// node by what was exchanged under `key`.
pub proof fn lemma_with_child_sum<V>(node: Node<V>, key: Seq<char>, child: Node<V>, p: Part)
    requires
        node.wf(),
    ensures
        node.with_child(key, child).sum(p) == node.sum(p) - node.child(key).sum(p) + child.sum(p),
{
    let r = rank(node.kids, key) as int;
    let others = lemma_others(node, key);
    lemma_rank(node.kids, key);
    if child.is_empty() {
        lemma_empty(child);
    } else {
        lemma_kids_sum_insert(others, r, (key, child), p);
    }
}

/// Putting back the child that a node has under a key changes nothing.
pub proof fn lemma_with_child_same<V>(node: Node<V>, key: Seq<char>)
    requires
        node.wf(),
    ensures
        node.with_child(key, node.child(key)) == node,
{
    let r = rank(node.kids, key) as int;
    let made = node.with_child(key, node.child(key));
    if node.has_child(key) {
        assert(node.kids[r] == (key, node.kids[r].1));
        assert(made.kids =~= node.kids);
    } else {
        assert(made.kids =~= node.kids);
    }
}

/// Of two children put under the same key one after the other, only the
/// second counts.
pub proof fn lemma_with_child_twice<V>(
    node: Node<V>,
    key: Seq<char>,
    first: Node<V>,
    second: Node<V>,
)
    requires
        node.wf(),
        first.wf(),
    ensures
        node.with_child(key, first).with_child(key, second) == node.with_child(key, second),
{
    let r = rank(node.kids, key) as int;
    let others = lemma_others(node, key);
    let once = node.with_child(key, first);
    lemma_with_child_wf(node, key, first);
    if first.is_empty() {
        lemma_empty(first);
        assert(once.kids == others);
        if r < others.len() {
            lemma_key_lt_asymmetric(key, others[r].0);
        }
        assert(!once.has_child(key));
    } else {
        lemma_inserted(others, key, first, r);
        assert(once.kids == others.insert(r, (key, first)));
        assert(once.has_child(key));
        assert(once.kids.remove(r) =~= others);
    }
}

/// The children of a well-formed node are well formed.
pub proof fn lemma_child_wf<V>(node: Node<V>, key: Seq<char>)
    requires
        node.wf(),
    ensures
        node.child(key).wf(),
        node.has_child(key) ==> !node.child(key).is_empty(),
        !node.has_child(key) ==> node.child(key).is_empty(),
{
    lemma_rank(node.kids, key);
    lemma_empty(Node::<V>::empty());
}

/// A patch laid over a node that it does not clash with gives a
/// well-formed node whose sums are the sums of both.
pub proof fn lemma_merged<V>(node: Node<V>, patch: Node<V>)
    requires
        node.wf(),
        patch.wf(),
        !node.clashes(patch),
    ensures
        node.merged(patch).wf(),
        forall|p: Part| #[trigger] node.merged(patch).sum(p) == node.sum(p) + patch.sum(p),
{
}

/// What planting gives: a well-formed trie that holds, where the path
/// leads, the node that was there with the patch laid over it, and whose
/// sums have grown by the sums of the patch.
pub proof fn lemma_planted<V>(node: Node<V>, path: Seq<Seq<char>>, patch: Node<V>)
    requires
        node.wf(),
        patch.wf(),
        !node.at(path).clashes(patch),
    ensures
        node.planted(path, patch).wf(),
        node.planted(path, patch).at(path) == node.at(path).merged(patch),
        forall|p: Part| #[trigger] node.planted(path, patch).sum(p) == node.sum(p) + patch.sum(p),
    decreases path.len(),
{
    if path.len() == 0 {
        lemma_merged(node, patch);
    } else {
        let key = path[0];
        let rest = path.drop_first();
        let child = node.child(key);
        lemma_child_wf(node, key);
        lemma_planted(child, rest, patch);
        let grown = child.planted(rest, patch);
        lemma_with_child_wf(node, key, grown);
        assert forall|p: Part| #[trigger]
            node.planted(path, patch).sum(p) == node.sum(p) + patch.sum(p) by {
            lemma_with_child_sum(node, key, grown, p);
        }
    }
}

/// What detaching gives: a well-formed trie that holds nothing where the
/// path leads, and whose sums have shrunk by the sums of what was there.
pub proof fn lemma_detached<V>(node: Node<V>, path: Seq<Seq<char>>)
    requires
        node.wf(),
    ensures
        node.detached(path).wf(),
        node.detached(path).at(path).is_empty(),
        forall|p: Part| #[trigger]
            node.detached(path).sum(p) == node.sum(p) - node.at(path).sum(p),
    decreases path.len(),
{
    if path.len() == 0 {
        lemma_empty(Node::<V>::empty());
    } else {
        let key = path[0];
        let rest = path.drop_first();
        let child = node.child(key);
        lemma_child_wf(node, key);
        lemma_detached(child, rest);
        let shrunk = child.detached(rest);
        lemma_with_child_wf(node, key, shrunk);
        assert forall|p: Part| #[trigger]
            node.detached(path).sum(p) == node.sum(p) - node.at(path).sum(p) by {
            lemma_with_child_sum(node, key, shrunk, p);
        }
    }
}

/// Detaching what was planted where nothing was gives back the trie as it
/// was before.
pub proof fn lemma_planted_detached<V>(node: Node<V>, path: Seq<Seq<char>>, patch: Node<V>)
    requires
        node.wf(),
        patch.wf(),
        node.at(path).is_empty(),
    ensures
        node.planted(path, patch).at(path) == patch,
        node.planted(path, patch).detached(path) == node,
    decreases path.len(),
{
    lemma_empty(node.at(path));
    if path.len() == 0 {
        assert(node.merged(patch) == patch);
    } else {
        let key = path[0];
        let rest = path.drop_first();
        let child = node.child(key);
        lemma_child_wf(node, key);
        lemma_planted(child, rest, patch);
        lemma_planted_detached(child, rest, patch);
        let grown = child.planted(rest, patch);
        lemma_with_child_wf(node, key, grown);
        lemma_with_child_twice(node, key, grown, child);
        lemma_with_child_same(node, key);
    }
}

/// No path leads from the empty node to anything but the empty node.
pub proof fn lemma_at_empty<V>(path: Seq<Seq<char>>)
    ensures
        Node::<V>::empty().at(path) == Node::<V>::empty(),
    decreases path.len(),
{
    if path.len() > 0 {
        lemma_at_empty::<V>(path.drop_first());
    }
}

/// Detaching where nothing is changes nothing.
pub proof fn lemma_detached_absent<V>(node: Node<V>, path: Seq<Seq<char>>)
    requires
        node.wf(),
        node.at(path).is_empty(),
    ensures
        node.detached(path) == node,
    decreases path.len(),
{
    if path.len() == 0 {
        lemma_empty(node);
    } else {
        let key = path[0];
        lemma_child_wf(node, key);
        lemma_detached_absent(node.child(key), path.drop_first());
        lemma_with_child_same(node, key);
    }
}

/// The gains and losses of a child lie within those of its parent.
pub proof fn lemma_child_sums<V>(node: Node<V>, key: Seq<char>)
    requires
        node.wf(),
    ensures
        0 <= node.child(key).gain() <= node.gain(),
        node.loss() <= node.child(key).loss() <= 0,
{
    let child = node.child(key);
    lemma_child_wf(node, key);
    lemma_sum_signs(child);
    lemma_with_child_same(node, key);
    lemma_with_child_sum(node, key, Node::<V>::empty(), Part::Gain);
    lemma_with_child_sum(node, key, Node::<V>::empty(), Part::Loss);
    lemma_sum_signs(node.with_child(key, Node::<V>::empty()));
    lemma_empty(Node::<V>::empty());
}

/// A copy has the sums of its source.
pub proof fn lemma_copy_sums<V: Clone>(copy: Node<V>, source: Node<V>, p: Part)
    requires
        copy.copy_of(source),
    ensures
        copy.sum(p) == source.sum(p),
    decreases copy,
{
    lemma_kids_copy_sums(copy.kids, source.kids, p);
}

/// Copies of children, entry by entry, have the sums of their sources.
pub proof fn lemma_kids_copy_sums<V: Clone>(
    copies: Seq<(Seq<char>, Node<V>)>,
    sources: Seq<(Seq<char>, Node<V>)>,
    p: Part,
)
    requires
        copies.len() == sources.len(),
        forall|i: int| 0 <= i < copies.len() ==> (#[trigger] copies[i]).1.copy_of(sources[i].1),
    ensures
        kids_sum(copies, p) == kids_sum(sources, p),
    decreases copies,
{
    if copies.len() > 0 {
        assert forall|i: int| 0 <= i < copies.drop_last().len() implies (#[trigger] copies.drop_last()[i]).1.copy_of(
        sources.drop_last()[i].1) by {
            assert(copies.drop_last()[i] == copies[i]);
        }
        lemma_kids_copy_sums(copies.drop_last(), sources.drop_last(), p);
        assert(copies.last() == copies[copies.len() - 1]);
        lemma_copy_sums(copies.last().1, sources.last().1, p);
    }
}

/// A copy of a well-formed trie is well formed.
pub proof fn lemma_copy_wf<V: Clone>(copy: Node<V>, source: Node<V>)
    requires
        copy.copy_of(source),
        source.wf(),
    ensures
        copy.wf(),
    decreases copy,
{
    assert forall|i: int| 0 <= i < copy.kids.len() implies !(#[trigger] copy.kids[i]).1.is_empty()
        && copy.kids[i].1.wf() by {
        assert(!source.kids[i].1.is_empty());
        lemma_copy_wf(copy.kids[i].1, source.kids[i].1);
    }
    assert forall|i: int, j: int| 0 <= i < j < copy.kids.len() implies key_lt(
        (#[trigger] copy.kids[i]).0,
        (#[trigger] copy.kids[j]).0,
    ) by {
        assert(key_lt(source.kids[i].0, source.kids[j].0));
    }
}

} // verus!
