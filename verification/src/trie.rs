//! The choice trie: a hierarchical map from addresses to weighted values.

pub mod laws;
pub mod lemmas;
pub mod model;
pub mod order;

use vstd::prelude::*;
use crate::address::{lemma_parse_spec, parse_spec, Address};
use crate::error::GenError;
use crate::trie::lemmas::{
    lemma_at_empty,
    lemma_child_sums,
    lemma_child_wf,
    lemma_copy_sums,
    lemma_copy_wf,
    lemma_detached,
    lemma_detached_absent,
    lemma_merged,
    lemma_planted,
    lemma_rank_is,
    lemma_sum_signs,
    lemma_with_child_wf,
};
use crate::trie::model::{rank, Node, Part};
use crate::trie::order::{
    key_lt,
    key_order,
    lemma_key_lt_asymmetric,
    lemma_key_lt_irreflexive,
    KeyOrder,
};

verus! {

/// A node of a choice trie, with all that lies below it.
///
/// A node may carry a value with a weight at its own position, and
/// children under keys. Its recursive weight is its own weight and the
/// recursive weights of its children. The sums of the positive and of the
/// negative weights below a node are kept apart, and each within the
/// range of `i64`, so that every partial sum of weights is exact.
#[derive(Debug, PartialEq)]
pub struct Trie<V> {
    value: Option<V>,
    own: i64,
    gain: i64,
    loss: i64,
    children: Vec<(Vec<char>, Trie<V>)>,
}

impl<V> View for Trie<V> {
    type V = Node<V>;

    closed spec fn view(&self) -> Node<V> {
        self.model()
    }
}

impl<V: Clone> Clone for Trie<V> {
    /// A copy of the trie, node by node.
    fn clone(&self) -> (copy: Self)
        ensures
            copy@.copy_of(self@),
            self.wf() ==> copy.wf(),
        decreases self,
    {
        let mut children: Vec<(Vec<char>, Trie<V>)> = Vec::new();
        let mut i: usize = 0;
        while i < self.children.len()
            invariant
                i <= self.children.len(),
                children.len() == i,
                forall|j: int|
                    0 <= j < i ==> (#[trigger] children[j]).0@ == self.children[j].0@
                        && children[j].1@.copy_of(self.children[j].1@) && (self.children[j].1.wf()
                        ==> children[j].1.wf()),
            decreases self.children.len() - i,
        {
            let entry = &self.children[i];
            let key = entry.0.clone();
            proof {
                assert(key@ =~= entry.0@);
            }
            children.push((key, entry.1.clone()));
            i += 1;
        }
        let copy = Trie {
            value: self.value.clone(),
            own: self.own,
            gain: self.gain,
            loss: self.loss,
            children,
        };
        proof {
            assert(copy@.copy_of(self@));
            if self.wf() {
                lemma_copy_wf(copy@, self@);
                lemma_copy_sums(copy@, self@, Part::Gain);
                lemma_copy_sums(copy@, self@, Part::Loss);
            }
        }
        copy
    }
}

impl<V> Trie<V> {
    /// The mathematical value of the trie.
    pub closed spec fn model(&self) -> Node<V>
        decreases self,
    {
        Node {
            value: self.value,
            own: self.own as int,
            kids: Seq::new(
                self.children.len() as nat,
                |i: int|
                    if 0 <= i < self.children.len() {
                        (self.children[i].0@, self.children[i].1.model())
                    } else {
                        (Seq::empty(), Node::empty())
                    },
            ),
        }
    }

    /// Whether the trie is in its normal form and the sums it keeps are
    /// those of its weights, at every node.
    pub closed spec fn wf(&self) -> bool
        decreases self,
    {
        &&& self@.wf()
        &&& self.gain == self@.gain()
        &&& self.loss == self@.loss()
        &&& forall|i: int| 0 <= i < self.children.len() ==> (#[trigger] self.children[i]).1.wf()
    }

    /// A well-formed trie has a well-formed value, and its sums lie within
    /// the range of `i64`.
    pub proof fn lemma_wf(&self)
        requires
            self.wf(),
        ensures
            self@.wf(),
            0 <= self@.gain() <= i64::MAX,
            i64::MIN <= self@.loss() <= 0,
            i64::MIN <= self@.weight() <= i64::MAX,
    {
        lemma_sum_signs(self@);
    }

    /// The empty trie.
    pub fn new() -> (trie: Self)
        ensures
            trie.wf(),
            trie@ == Node::<V>::empty(),
    {
        let trie = Trie { value: None, own: 0, gain: 0, loss: 0, children: Vec::new() };
        proof {
            assert(trie@.kids =~= Seq::empty());
        }
        trie
    }

    /// A trie that carries `value` with `weight` and has no children.
    pub fn leaf(value: V, weight: i64) -> (trie: Self)
        ensures
            trie.wf(),
            trie@ == Node::leaf(value, weight as int),
    {
        let gain = if weight > 0 {
            weight
        } else {
            0
        };
        let loss = if weight < 0 {
            weight
        } else {
            0
        };
        let trie = Trie { value: Some(value), own: weight, gain, loss, children: Vec::new() };
        proof {
            assert(trie@.kids =~= Seq::empty());
        }
        trie
    }

    /// Whether the trie carries nothing: no value, no weight, no child.
    pub fn is_empty(&self) -> (r: bool)
        ensures
            r == self@.is_empty(),
    {
        self.value.is_none() && self.own == 0 && self.children.len() == 0
    }

    /// Whether the node carries a value at its own position.
    pub fn is_leaf(&self) -> (r: bool)
        ensures
            r == (self@.value is Some),
    {
        self.value.is_some()
    }

    /// The recursive weight of the trie.
    pub fn weight(&self) -> (w: i64)
        requires
            self.wf(),
        ensures
            w == self@.weight(),
    {
        proof {
            lemma_sum_signs(self@);
        }
        self.gain + self.loss
    }

    /// Where `key` stands, or would stand, among the children, and whether
    /// it stands there.
    fn find_child(&self, key: &Vec<char>) -> (r: (usize, bool))
        requires
            self.wf(),
        ensures
            r.0 == rank(self@.kids, key@),
            r.0 <= self.children.len(),
            r.1 == self@.has_child(key@),
            r.1 ==> r.0 < self.children.len(),
    {
        let mut i: usize = 0;
        while i < self.children.len()
            invariant
                i <= self.children.len(),
                self@.kids.len() == self.children.len(),
                forall|j: int| 0 <= j < i ==> key_lt((#[trigger] self@.kids[j]).0, key@),
            decreases self.children.len() - i,
        {
            let order = key_order(&self.children[i].0, key);
            proof {
                assert(self@.kids[i as int].0 == self.children[i as int].0@);
            }
            match order {
                KeyOrder::Before => {},
                KeyOrder::Same => {
                    proof {
                        lemma_key_lt_irreflexive(key@);
                        lemma_rank_is(self@.kids, key@, i as int);
                    }
                    return (i, true);
                },
                KeyOrder::After => {
                    proof {
                        lemma_key_lt_asymmetric(key@, self@.kids[i as int].0);
                        lemma_rank_is(self@.kids, key@, i as int);
                    }
                    return (i, false);
                },
            }
            i += 1;
        }
        proof {
            lemma_rank_is(self@.kids, key@, i as int);
        }
        (i, false)
    }

    /// The node that `path` leads to, if it carries anything.
    fn locate(&self, path: &Address) -> (found: Option<&Trie<V>>)
        requires
            self.wf(),
            path@.len() > 0,
        ensures
            self@.at(path@).is_empty() ==> found is None,
            !self@.at(path@).is_empty() ==> (found matches Some(t) && t.wf() && t@ == self@.at(
                path@,
            )),
    {
        let n = path.len();
        let mut node: &Trie<V> = self;
        let mut depth: usize = 0;
        proof {
            assert(path@.skip(0) == path@);
        }
        while depth < n
            invariant
                n == path@.len(),
                depth <= n,
                node.wf(),
                node@.at(path@.skip(depth as int)) == self@.at(path@),
                depth > 0 ==> !node@.is_empty(),
            decreases n - depth,
        {
            let key = path.segment(depth);
            let (i, found) = node.find_child(key);
            proof {
                let rest = path@.skip(depth as int);
                assert(rest[0] == key@);
                assert(rest.drop_first() == path@.skip(depth + 1));
                lemma_child_wf(node@, key@);
            }
            if !found {
                proof {
                    lemma_at_empty::<V>(path@.skip(depth + 1));
                }
                return None;
            }
            proof {
                assert(node@.kids[i as int] == (node.children[i as int].0@, node.children[i as int].1@));
            }
            node = &node.children[i].1;
            depth += 1;
        }
        proof {
            assert(path@.skip(depth as int).len() == 0);
        }
        Some(node)
    }

    /// The subtrie at `addr`: the node that the address leads to, with all
    /// that lies below it. There is none where the trie holds nothing at
    /// the address, and none at a string that is no address.
    pub fn search(&self, addr: &str) -> (found: Option<&Trie<V>>)
        requires
            self.wf(),
        ensures
            match parse_spec(addr@) {
                Some(path) => if self@.at(path).is_empty() {
                    found is None
                } else {
                    found matches Some(t) && t.wf() && t@ == self@.at(path)
                },
                None => found is None,
            },
    {
        proof {
            lemma_parse_spec(addr@);
        }
        match Address::parse(addr) {
            Ok(path) => self.locate(&path),
            Err(_) => None,
        }
    }

    /// Takes the value out of the node, leaving its weight and its
    /// children. Fails on a node that carries no value.
    pub fn take_inner(&mut self) -> (r: Result<V, GenError>)
        requires
            old(self).wf(),
        ensures
            final(self).wf(),
            match old(self)@.value {
                Some(v) => r == Ok::<V, GenError>(v) && final(self)@ == (Node {
                    value: None,
                    ..old(self)@
                }),
                None => r == Err::<V, GenError>(GenError::NotALeaf) && final(self)@ == old(self)@,
            },
    {
        let taken = self.value.take();
        proof {
            assert(final(self)@.kids =~= old(self)@.kids);
        }
        match taken {
            Some(v) => Ok(v),
            None => Err(GenError::NotALeaf),
        }
    }

    /// Puts `value` into the node, in place of the value it carries, if
    /// any, which is returned. Weight and children stay.
    pub fn replace_inner(&mut self, value: V) -> (previous: Option<V>)
        requires
            old(self).wf(),
        ensures
            final(self).wf(),
            previous == old(self)@.value,
            final(self)@ == (Node { value: Some(value), ..old(self)@ }),
    {
        let previous = self.value.take();
        self.value = Some(value);
        proof {
            assert(final(self)@.kids =~= old(self)@.kids);
        }
        previous
    }

    /// Whether the node's own position is in use.
    fn occupied(&self) -> (r: bool)
        ensures
            r == self@.occupied(),
    {
        self.value.is_some() || self.own != 0
    }

    /// Lays `patch` over this node.
    fn merge(&mut self, patch: Trie<V>)
        requires
            old(self).wf(),
            patch.wf(),
            !old(self)@.clashes(patch@),
            old(self)@.has_room_for(patch@),
        ensures
            final(self).wf(),
            final(self)@ == old(self)@.merged(patch@),
    {
        proof {
            lemma_merged(old(self)@, patch@);
            lemma_sum_signs(old(self)@);
            lemma_sum_signs(patch@);
        }
        let ghost laid = patch@;
        let Trie { value, own, gain, loss, children } = patch;
        if value.is_some() {
            self.value = value;
        }
        self.own = self.own + own;
        self.gain = self.gain + gain;
        self.loss = self.loss + loss;
        if self.children.len() == 0 {
            self.children = children;
        }
        proof {
            assert(self@.kids =~= old(self)@.merged(laid).kids);
        }
    }

    /// Lays `patch` over the node that the segments of `path` from
    /// position `depth` on lead to.
    fn plant(&mut self, path: &Address, depth: usize, patch: Trie<V>)
        requires
            old(self).wf(),
            patch.wf(),
            depth <= path@.len(),
            !old(self)@.at(path@.skip(depth as int)).clashes(patch@),
            old(self)@.has_room_for(patch@),
        ensures
            final(self).wf(),
            final(self)@ == old(self)@.planted(path@.skip(depth as int), patch@),
        decreases path@.len() - depth,
    {
        if depth == path.len() {
            proof {
                assert(path@.skip(depth as int).len() == 0);
            }
            self.merge(patch);
            return ;
        }
        let ghost before = self@;
        let ghost laid = patch@;
        let ghost rest = path@.skip(depth as int);
        let key = path.segment(depth);
        let (i, found) = self.find_child(key);
        let patch_gain = patch.gain;
        let patch_loss = patch.loss;
        proof {
            assert(rest[0] == key@);
            assert(rest.drop_first() == path@.skip(depth + 1));
            lemma_child_wf(before, key@);
            lemma_child_sums(before, key@);
            lemma_planted(before, rest, laid);
            lemma_sum_signs(before);
            lemma_sum_signs(laid);
            if found {
                assert(before.kids[i as int] == (self.children[i as int].0@, self.children[i as int].1@));
            }
        }
        let mut entry = if found {
            self.children.remove(i)
        } else {
            (key.clone(), Trie::new())
        };
        proof {
            assert(entry.0@ =~= key@);
            assert(entry.1@ == before.child(key@));
        }
        let ghost others = self.children@;
        entry.1.plant(path, depth + 1, patch);
        let ghost grown = entry.1@;
        proof {
            entry.1.lemma_wf();
            lemma_with_child_wf(before, key@, grown);
        }
        if !entry.1.is_empty() {
            self.children.insert(i, entry);
        }
        self.gain = self.gain + patch_gain;
        self.loss = self.loss + patch_loss;
        proof {
            assert(self@.kids =~= before.with_child(key@, grown).kids);
        }
    }

    /// Takes out the node that the segments of `path` from position
    /// `depth` on lead to, with the nodes that this leaves empty.
    fn detach(&mut self, path: &Address, depth: usize) -> (out: Trie<V>)
        requires
            old(self).wf(),
            depth <= path@.len(),
        ensures
            final(self).wf(),
            out.wf(),
            out@ == old(self)@.at(path@.skip(depth as int)),
            final(self)@ == old(self)@.detached(path@.skip(depth as int)),
        decreases path@.len() - depth,
    {
        if depth == path.len() {
            proof {
                assert(path@.skip(depth as int).len() == 0);
            }
            let mut out = Trie::new();
            std::mem::swap(self, &mut out);
            return out;
        }
        let ghost before = self@;
        let ghost rest = path@.skip(depth as int);
        let key = path.segment(depth);
        let (i, found) = self.find_child(key);
        proof {
            assert(rest[0] == key@);
            assert(rest.drop_first() == path@.skip(depth + 1));
            lemma_child_wf(before, key@);
            lemma_detached(before, rest);
            lemma_sum_signs(before);
            lemma_sum_signs(before.detached(rest));
            lemma_sum_signs(before.at(rest));
        }
        if !found {
            proof {
                lemma_at_empty::<V>(path@.skip(depth + 1));
                lemma_detached_absent(before, rest);
            }
            return Trie::new();
        }
        proof {
            assert(before.kids[i as int] == (self.children[i as int].0@, self.children[i as int].1@));
        }
        let mut entry = self.children.remove(i);
        let out = entry.1.detach(path, depth + 1);
        let ghost shrunk = entry.1@;
        proof {
            entry.1.lemma_wf();
            lemma_with_child_wf(before, key@, shrunk);
        }
        if !entry.1.is_empty() {
            self.children.insert(i, entry);
        }
        self.gain = self.gain - out.gain;
        self.loss = self.loss - out.loss;
        proof {
            assert(self@.kids =~= before.with_child(key@, shrunk).kids);
        }
        out
    }

    /// Grafts `sub` at `addr`. Nodes on the way are made as needed. Where
    /// the trie holds a node at the address already, `sub` is laid over
    /// it: this fails if both use their own position, or both have
    /// children. An empty `sub` changes nothing.
    pub fn insert(&mut self, addr: &str, sub: Trie<V>) -> (r: Result<(), GenError>)
        requires
            old(self).wf(),
            sub.wf(),
        ensures
            final(self).wf(),
            match parse_spec(addr@) {
                None => r == Err::<(), GenError>(GenError::BadAddress) && final(self)@ == old(
                    self,
                )@,
                Some(path) => if old(self)@.at(path).clashes(sub@) {
                    r == Err::<(), GenError>(GenError::AddressOccupied) && final(self)@ == old(
                        self,
                    )@
                } else if !old(self)@.has_room_for(sub@) {
                    r == Err::<(), GenError>(GenError::WeightOverflow) && final(self)@ == old(
                        self,
                    )@
                } else {
                    r == Ok::<(), GenError>(()) && final(self)@ == old(self)@.planted(path, sub@)
                },
            },
    {
        proof {
            lemma_parse_spec(addr@);
        }
        let path = match Address::parse(addr) {
            Ok(path) => path,
            Err(_) => {
                return Err(GenError::BadAddress);
            },
        };
        let clash = match self.locate(&path) {
            Some(node) => (node.occupied() && sub.occupied()) || (node.children.len() > 0
                && sub.children.len() > 0),
            None => false,
        };
        if clash {
            return Err(GenError::AddressOccupied);
        }
        proof {
            lemma_sum_signs(self@);
            lemma_sum_signs(sub@);
        }
        if self.gain > i64::MAX - sub.gain || self.loss < i64::MIN - sub.loss {
            return Err(GenError::WeightOverflow);
        }
        proof {
            assert(path@.skip(0) == path@);
        }
        self.plant(&path, 0, sub);
        Ok(())
    }

    /// Puts `value` with `weight` at `addr`. Nodes on the way are made as
    /// needed. Fails if the position at the address is in use.
    pub fn observe(&mut self, addr: &str, value: V, weight: i64) -> (r: Result<(), GenError>)
        requires
            old(self).wf(),
        ensures
            final(self).wf(),
            match parse_spec(addr@) {
                None => r == Err::<(), GenError>(GenError::BadAddress) && final(self)@ == old(
                    self,
                )@,
                Some(path) => if old(self)@.at(path).occupied() {
                    r == Err::<(), GenError>(GenError::AddressOccupied) && final(self)@ == old(
                        self,
                    )@
                } else if !old(self)@.has_room_for(Node::leaf(value, weight as int)) {
                    r == Err::<(), GenError>(GenError::WeightOverflow) && final(self)@ == old(
                        self,
                    )@
                } else {
                    r == Ok::<(), GenError>(()) && final(self)@ == old(self)@.planted(
                        path,
                        Node::leaf(value, weight as int),
                    )
                },
            },
    {
        self.insert(addr, Trie::leaf(value, weight))
    }

    /// Detaches the subtrie at `addr` and returns it. Nodes that this
    /// leaves empty go with it. Returns nothing, and changes nothing,
    /// where the trie holds nothing at the address, and at a string that
    /// is no address.
    pub fn remove(&mut self, addr: &str) -> (out: Option<Trie<V>>)
        requires
            old(self).wf(),
        ensures
            final(self).wf(),
            match parse_spec(addr@) {
                None => out is None && final(self)@ == old(self)@,
                Some(path) => if old(self)@.at(path).is_empty() {
                    out is None && final(self)@ == old(self)@
                } else {
                    out matches Some(t) && t.wf() && t@ == old(self)@.at(path) && final(self)@
                        == old(self)@.detached(path)
                },
            },
    {
        proof {
            lemma_parse_spec(addr@);
        }
        let path = match Address::parse(addr) {
            Ok(path) => path,
            Err(_) => {
                return None;
            },
        };
        proof {
            assert(path@.skip(0) == path@);
            old(self).lemma_wf();
            if old(self)@.at(path@).is_empty() {
                lemma_detached_absent(old(self)@, path@);
            }
        }
        let out = self.detach(&path, 0);
        if out.is_empty() {
            None
        } else {
            Some(out)
        }
    }
}

/// A mask over addresses: the addresses that carry `true` are selected.
pub type AddrMap = Trie<bool>;

impl Trie<bool> {
    /// Whether the mask selects `addr`: whether it carries `true` there.
    pub fn selects(&self, addr: &str) -> (r: bool)
        requires
            self.wf(),
        ensures
            r == match parse_spec(addr@) {
                Some(path) => self@.at(path).value == Some(true),
                None => false,
            },
    {
        match self.search(addr) {
            Some(node) => match node.value {
                Some(flag) => flag,
                None => false,
            },
            None => false,
        }
    }
}

} // verus!
