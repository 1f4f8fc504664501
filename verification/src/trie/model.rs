use vstd::prelude::*;
use crate::trie::order::key_lt;

verus! {

/// The mathematical value of a trie: what a node carries at its own
/// position, and its children by key.
///
/// A trie is read as a total map from paths to nodes: where no node has
/// been put, the empty node stands. A well-formed node keeps no empty
/// child, and keeps its children in ascending order of their keys, so two
/// well-formed nodes with the same contents are equal.
pub struct Node<V> {
    /// The value at the node's own position, if it carries one.
    pub value: Option<V>,
    /// The weight at the node's own position.
    pub own: int,
    /// The children with their keys.
    pub kids: Seq<(Seq<char>, Node<V>)>,
}

/// A part of a weight: all of it, what of it lies above zero, or what of
/// it lies below zero.
pub enum Part {
    /// The weight itself.
    Whole,
    /// The weight where it is positive, else zero.
    Gain,
    /// The weight where it is negative, else zero.
    Loss,
}

/// The part `p` of the weight `w`.
pub open spec fn part(p: Part, w: int) -> int {
    match p {
        Part::Whole => w,
        Part::Gain => if w > 0 {
            w
        } else {
            0
        },
        Part::Loss => if w < 0 {
            w
        } else {
            0
        },
    }
}

/// Whether the keys of `kids` ascend strictly.
pub open spec fn ascending<V>(kids: Seq<(Seq<char>, Node<V>)>) -> bool {
    forall|i: int, j: int|
        0 <= i < j < kids.len() ==> key_lt((#[trigger] kids[i]).0, (#[trigger] kids[j]).0)
}

/// The number of entries at the start of `kids` whose keys come before
/// `key`. Among ascending keys this is where `key` stands or would stand.
pub open spec fn rank<V>(kids: Seq<(Seq<char>, Node<V>)>, key: Seq<char>) -> nat
    decreases kids.len(),
{
    if kids.len() == 0 || !key_lt(kids[0].0, key) {
        0
    } else {
        1 + rank(kids.drop_first(), key)
    }
}

/// The sum of the part `p` of all weights in `kids`.
pub open spec fn kids_sum<V>(kids: Seq<(Seq<char>, Node<V>)>, p: Part) -> int
    decreases kids,
{
    if kids.len() == 0 {
        0
    } else {
        kids_sum(kids.drop_last(), p) + kids.last().1.sum(p)
    }
}

impl<V> Node<V> {
    /// The node that carries nothing.
    pub open spec fn empty() -> Self {
        Node { value: None, own: 0, kids: Seq::empty() }
    }

    /// The node that carries `value` with `weight` and has no children.
    pub open spec fn leaf(value: V, weight: int) -> Self {
        Node { value: Some(value), own: weight, kids: Seq::empty() }
    }

    /// Whether the node carries nothing: no value, no weight, no child.
    pub open spec fn is_empty(self) -> bool {
        self.value is None && self.own == 0 && self.kids.len() == 0
    }

    /// Whether the node's own position is in use: by a value, or by the
    /// weight of a value that was taken out.
    pub open spec fn occupied(self) -> bool {
        self.value is Some || self.own != 0
    }

    /// Whether the node has a child under `key`.
    pub open spec fn has_child(self, key: Seq<char>) -> bool {
        let r = rank(self.kids, key);
        r < self.kids.len() && self.kids[r as int].0 == key
    }

    /// The child under `key`; the empty node if there is none.
    pub open spec fn child(self, key: Seq<char>) -> Self {
        if self.has_child(key) {
            self.kids[rank(self.kids, key) as int].1
        } else {
            Self::empty()
        }
    }

    /// The node with `node` as its child under `key`, in place of what it
    /// had there. An empty `node` leaves no child under `key`.
    pub open spec fn with_child(self, key: Seq<char>, node: Self) -> Self {
        let r = rank(self.kids, key) as int;
        let others = if self.has_child(key) {
            self.kids.remove(r)
        } else {
            self.kids
        };
        Node {
            value: self.value,
            own: self.own,
            kids: if node.is_empty() {
                others
            } else {
                others.insert(r, (key, node))
            },
        }
    }

    /// The node that `path` leads to from here; the empty node if the path
    /// leaves the trie.
    pub open spec fn at(self, path: Seq<Seq<char>>) -> Self
        decreases path.len(),
    {
        if path.len() == 0 {
            self
        } else {
            self.child(path[0]).at(path.drop_first())
        }
    }

    /// The sum of the part `p` of all weights in the trie: that of the
    /// node's own weight, and the sums of its children.
    pub open spec fn sum(self, p: Part) -> int
        decreases self,
    {
        part(p, self.own) + kids_sum(self.kids, p)
    }

    /// The recursive weight: the node's own weight and the recursive
    /// weights of its children.
    pub open spec fn weight(self) -> int {
        self.sum(Part::Whole)
    }

    /// The sum of the positive weights in the trie.
    pub open spec fn gain(self) -> int {
        self.sum(Part::Gain)
    }

    /// The sum of the negative weights in the trie.
    pub open spec fn loss(self) -> int {
        self.sum(Part::Loss)
    }

    /// Whether the trie is in its one normal form: at every node the keys
    /// ascend, and no child is empty.
    pub open spec fn wf(self) -> bool
        decreases self,
    {
        &&& ascending(self.kids)
        &&& forall|i: int|
            0 <= i < self.kids.len() ==> !(#[trigger] self.kids[i]).1.is_empty()
                && self.kids[i].1.wf()
    }

    /// Whether `patch` cannot be laid over this node: both use their own
    /// position, or both have children.
    pub open spec fn clashes(self, patch: Self) -> bool {
        (self.occupied() && patch.occupied()) || (self.kids.len() > 0 && patch.kids.len() > 0)
    }

    /// Whether the sums of this trie and of `patch` together stay within
    /// the range of `i64`, the positive and the negative ones apart.
    pub open spec fn has_room_for(self, patch: Self) -> bool {
        self.gain() + patch.gain() <= i64::MAX && self.loss() + patch.loss() >= i64::MIN
    }

    /// This node with `patch` laid over it, where they do not clash: the
    /// value and the children of whichever has them, and both weights.
    pub open spec fn merged(self, patch: Self) -> Self {
        Node {
            value: if patch.value is Some {
                patch.value
            } else {
                self.value
            },
            own: self.own + patch.own,
            kids: if self.kids.len() == 0 {
                patch.kids
            } else {
                self.kids
            },
        }
    }

    /// The trie with `patch` laid over the node that `path` leads to.
    pub open spec fn planted(self, path: Seq<Seq<char>>, patch: Self) -> Self
        decreases path.len(),
    {
        if path.len() == 0 {
            self.merged(patch)
        } else {
            self.with_child(path[0], self.child(path[0]).planted(path.drop_first(), patch))
        }
    }

    /// The trie without the node that `path` leads to, and without the
    /// nodes that this leaves empty.
    pub open spec fn detached(self, path: Seq<Seq<char>>) -> Self
        decreases path.len(),
    {
        if path.len() == 0 {
            Self::empty()
        } else {
            self.with_child(path[0], self.child(path[0]).detached(path.drop_first()))
        }
    }
}

impl<V: Clone> Node<V> {
    /// Whether this trie is what cloning `source` node by node may give:
    /// the same keys and weights, and of each value a clone.
    pub open spec fn copy_of(self, source: Self) -> bool
        decreases self,
    {
        &&& self.own == source.own
        &&& self.value is Some <==> source.value is Some
        &&& source.value is Some ==> cloned(source.value->0, self.value->0)
        &&& self.kids.len() == source.kids.len()
        &&& forall|i: int|
            0 <= i < self.kids.len() ==> (#[trigger] self.kids[i]).0 == source.kids[i].0
                && self.kids[i].1.copy_of(source.kids[i].1)
    }
}

} // verus!
