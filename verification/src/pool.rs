//! Arena-backed storage primitives.
//!
//! Two primitives live here:
//! * an interned list pool: several ordered lists share one backing arena,
//!   and a list handle is a small (offset, length) pair;
//! * a pooled set arena: several sets share one pool, each addressed by a
//!   dense handle, with deterministic iteration in insertion order.
//!
//! The arena of a list pool only ever grows, so a well-formed list handle
//! never dangles and its contents never change behind its back.

use vstd::prelude::*;
use crate::fun::Block;

verus! {

/// Handle to one interned list inside a [`ListPool`].
#[derive(Copy, Clone, Debug, PartialEq, Eq, Structural)]
pub struct ListHandle {
    pub off: usize,
    pub len: usize,
}

impl ListHandle {
    /// An empty list; well-formed in every pool.
    pub fn new() -> (r: ListHandle)
        ensures
            r.off == 0 && r.len == 0,
    {
        ListHandle { off: 0, len: 0 }
    }
}

/// Interned storage for homogeneous ordered lists sharing one arena.
pub struct ListPool<T> {
    pub data: Vec<T>,
}

impl<T: Copy> ListPool<T> {
    /// The handle points at a region that lies inside the arena.
    pub open spec fn list_wf(self, l: ListHandle) -> bool {
        l.off + l.len <= self.data@.len()
    }

    /// The ordered contents of the list.
    pub open spec fn list_view(self, l: ListHandle) -> Seq<T> {
        self.data@.subrange(l.off as int, l.off + l.len)
    }

    /// The old arena is a prefix of the new one: nothing existing moved.
    pub open spec fn extends(self, pre: Self) -> bool {
        pre.data@.len() <= self.data@.len() && self.data@.subrange(
            0,
            pre.data@.len() as int,
        ) == pre.data@
    }

    /// Growing the arena preserves every well-formed list's contents.
    pub proof fn lemma_extends_preserves(self, pre: Self, l: ListHandle)
        requires
            self.extends(pre),
            pre.list_wf(l),
        ensures
            self.list_wf(l),
            self.list_view(l) == pre.list_view(l),
    {
        assert(self.list_view(l) =~= pre.list_view(l));
    }

    pub fn new() -> (r: Self)
        ensures
            r.data@.len() == 0,
    {
        ListPool { data: Vec::new() }
    }

    /// Append one element to a list, returning the grown list's handle.
    /// The arena only grows, so every other well-formed list keeps its view.
    pub fn push(&mut self, l: ListHandle, v: T) -> (r: ListHandle)
        requires
            old(self).list_wf(l),
        ensures
            final(self).extends(*old(self)),
            final(self).list_wf(r),
            final(self).list_view(r) == old(self).list_view(l).push(v),
            r.len == l.len + 1,
    {
        let n0 = self.data.len();
        if l.off + l.len == n0 {
            // The list sits at the end of the arena: grow it in place.
            self.data.push(v);
            let r = ListHandle { off: l.off, len: self.data.len() - l.off };
            proof {
                assert(self.list_view(r) =~= old(self).list_view(l).push(v));
                assert(self.data@.subrange(0, old(self).data@.len() as int) =~= old(self).data@);
            }
            r
        } else {
            // Copy the list to the end of the arena, then append.
            let off = self.data.len();
            let mut i: usize = 0;
            while i < l.len
                invariant
                    i <= l.len,
                    off == old(self).data@.len(),
                    self.data@.len() == off + i,
                    old(self).list_wf(l),
                    self.data@.subrange(0, off as int) == old(self).data@,
                    self.data@.subrange(off as int, off + i) == old(self).list_view(l).subrange(
                        0,
                        i as int,
                    ),
                decreases l.len - i,
            {
                assert(l.off + i < off);
                let v_i = self.data[l.off + i];
                assert(v_i == old(self).list_view(l)[i as int]);
                self.data.push(v_i);
                proof {
                    assert(self.data@.subrange(0, off as int) =~= old(self).data@);
                    assert(self.data@.subrange(off as int, off + i + 1) =~= old(self).list_view(
                        l,
                    ).subrange(0, i + 1));
                }
                i = i + 1;
            }
            self.data.push(v);
            let r = ListHandle { off, len: self.data.len() - off };
            proof {
                assert(self.data@.subrange(0, off as int) =~= old(self).data@);
                assert(old(self).list_view(l).subrange(0, l.len as int) =~= old(self).list_view(
                    l,
                ));
                assert(self.list_view(r) =~= old(self).list_view(l).push(v));
            }
            r
        }
    }

    /// Intern a whole list at the end of the arena.
    pub fn intern(&mut self, xs: &Vec<T>) -> (r: ListHandle)
        ensures
            final(self).extends(*old(self)),
            final(self).list_wf(r),
            final(self).list_view(r) == xs@,
            r.len == xs@.len(),
    {
        let off = self.data.len();
        let mut i: usize = 0;
        while i < xs.len()
            invariant
                i <= xs@.len(),
                off == old(self).data@.len(),
                self.data@.len() == off + i,
                self.data@.subrange(0, off as int) == old(self).data@,
                self.data@.subrange(off as int, off + i) == xs@.subrange(0, i as int),
            decreases xs@.len() - i,
        {
            let v_i = xs[i];
            self.data.push(v_i);
            proof {
                assert(self.data@.subrange(0, off as int) =~= old(self).data@);
                assert(self.data@.subrange(off as int, off + i + 1) =~= xs@.subrange(0, i + 1));
            }
            i = i + 1;
        }
        let r = ListHandle { off, len: self.data.len() - off };
        proof {
            assert(self.list_view(r) =~= xs@);
        }
        r
    }

    /// Read one element of a list.
    pub fn get(&self, l: ListHandle, i: usize) -> (r: T)
        requires
            self.list_wf(l),
            i < l.len,
        ensures
            r == self.list_view(l)[i as int],
    {
        let n = self.data.len();
        assert(l.off + i < n);
        self.data[l.off + i]
    }

    /// Copy a list's contents out of the arena.
    pub fn get_all(&self, l: ListHandle) -> (r: Vec<T>)
        requires
            self.list_wf(l),
        ensures
            r@ == self.list_view(l),
    {
        let mut out: Vec<T> = Vec::new();
        let mut i: usize = 0;
        while i < l.len
            invariant
                i <= l.len,
                self.list_wf(l),
                out@ == self.list_view(l).subrange(0, i as int),
            decreases l.len - i,
        {
            let n = self.data.len();
            assert(l.off + i < n);
            let v_i = self.data[l.off + i];
            out.push(v_i);
            proof {
                assert(self.list_view(l).subrange(0, i + 1) =~= self.list_view(l).subrange(
                    0,
                    i as int,
                ).push(self.list_view(l)[i as int]));
            }
            i = i + 1;
        }
        proof {
            assert(self.list_view(l).subrange(0, l.len as int) =~= self.list_view(l));
        }
        out
    }
}

/// Handle to one set inside a [`BlockSetPool`].
#[derive(Copy, Clone, Debug, PartialEq, Eq, Structural)]
pub struct SetHandle {
    pub idx: usize,
}

/// Pooled storage for sets of blocks. Each set keeps its members in
/// insertion order and holds no duplicates, so iteration over a set is
/// deterministic and derived from insertion order.
pub struct BlockSetPool {
    pub sets: Vec<Vec<Block>>,
}

impl BlockSetPool {
    pub open spec fn set_wf(self, s: SetHandle) -> bool {
        s.idx < self.sets@.len()
    }

    /// The members of the set, in insertion order.
    pub open spec fn set_seq(self, s: SetHandle) -> Seq<Block> {
        self.sets@[s.idx as int]@
    }

    /// Every set in the pool is duplicate-free.
    pub open spec fn pool_wf(self) -> bool {
        forall|i: int|
            0 <= i < self.sets@.len() ==> (#[trigger] self.sets@[i])@.no_duplicates()
    }

    /// All sets other than `s` have the same members as in `pre`.
    pub open spec fn others_unchanged(self, pre: Self, s: SetHandle) -> bool {
        &&& self.sets@.len() == pre.sets@.len()
        &&& forall|t: SetHandle|
            pre.set_wf(t) && t.idx != s.idx ==> #[trigger] self.set_seq(t) == pre.set_seq(t)
    }

    pub fn new() -> (r: Self)
        ensures
            r.sets@.len() == 0,
            r.pool_wf(),
    {
        BlockSetPool { sets: Vec::new() }
    }

    /// Allocate a fresh empty set in the pool.
    pub fn new_set(&mut self) -> (r: SetHandle)
        requires
            old(self).pool_wf(),
        ensures
            final(self).pool_wf(),
            final(self).sets@.len() == old(self).sets@.len() + 1,
            r.idx == old(self).sets@.len(),
            final(self).set_wf(r),
            final(self).set_seq(r) == Seq::<Block>::empty(),
            forall|t: SetHandle|
                old(self).set_wf(t) ==> #[trigger] final(self).set_seq(t) == old(self).set_seq(t),
    {
        let idx = self.sets.len();
        self.sets.push(Vec::new());
        SetHandle { idx }
    }

    /// Allocate two fresh empty sets at once, at consecutive handles.
    pub fn new_set_pair(&mut self) -> (r: (SetHandle, SetHandle))
        requires
            old(self).pool_wf(),
        ensures
            final(self).pool_wf(),
            final(self).sets@.len() == old(self).sets@.len() + 2,
            r.0.idx == old(self).sets@.len(),
            r.1.idx == old(self).sets@.len() + 1,
            final(self).set_wf(r.0),
            final(self).set_wf(r.1),
            final(self).set_seq(r.0) == Seq::<Block>::empty(),
            final(self).set_seq(r.1) == Seq::<Block>::empty(),
            forall|t: SetHandle|
                old(self).set_wf(t) ==> #[trigger] final(self).set_seq(t) == old(self).set_seq(t),
    {
        let a = SetHandle { idx: self.sets.len() };
        self.sets.push(Vec::new());
        let b = SetHandle { idx: self.sets.len() };
        self.sets.push(Vec::new());
        (a, b)
    }

    pub fn contains(&self, s: SetHandle, b: Block) -> (r: bool)
        requires
            self.set_wf(s),
        ensures
            r == self.set_seq(s).contains(b),
    {
        let n = self.sets[s.idx].len();
        let mut i: usize = 0;
        while i < n
            invariant
                self.set_wf(s),
                n == self.set_seq(s).len(),
                i <= n,
                forall|j: int| 0 <= j < i ==> self.set_seq(s)[j] != b,
            decreases n - i,
        {
            if self.sets[s.idx][i] == b {
                return true;
            }
            i = i + 1;
        }
        false
    }

    /// Insert a member; returns true when it was not present before.
    pub fn insert(&mut self, s: SetHandle, b: Block) -> (r: bool)
        requires
            old(self).pool_wf(),
            old(self).set_wf(s),
        ensures
            final(self).pool_wf(),
            final(self).set_wf(s),
            final(self).others_unchanged(*old(self), s),
            r == !old(self).set_seq(s).contains(b),
            final(self).set_seq(s) == if old(self).set_seq(s).contains(b) {
                old(self).set_seq(s)
            } else {
                old(self).set_seq(s).push(b)
            },
    {
        if self.contains(s, b) {
            false
        } else {
            let inner = &mut self.sets[s.idx];
            inner.push(b);
            true
        }
    }

    /// Remove a member, keeping the order of the rest.
    pub fn remove(&mut self, s: SetHandle, b: Block) -> (r: bool)
        requires
            old(self).pool_wf(),
            old(self).set_wf(s),
        ensures
            final(self).pool_wf(),
            final(self).set_wf(s),
            final(self).others_unchanged(*old(self), s),
            r == old(self).set_seq(s).contains(b),
            final(self).set_seq(s) == old(self).set_seq(s).remove_value(b),
            !final(self).set_seq(s).contains(b),
    {
        proof {
            old(self).set_seq(s).index_of_first_ensures(b);
        }
        let n = self.sets[s.idx].len();
        let mut i: usize = 0;
        while i < n
            invariant
                old(self).pool_wf(),
                old(self).set_wf(s),
                *self == *old(self),
                n == self.set_seq(s).len(),
                i <= n,
                forall|j: int| 0 <= j < i ==> self.set_seq(s)[j] != b,
            decreases n - i,
        {
            if self.sets[s.idx][i] == b {
                proof {
                    let pre = old(self).set_seq(s);
                    assert(pre[i as int] == b);
                    assert(pre.contains(b));
                    assert(pre.index_of_first(b) == Some(i as int)) by {
                        pre.index_of_first_ensures(b);
                        assert(pre.index_of_first(b) is Some);
                        let k = pre.index_of_first(b)->Some_0;
                        assert(pre[k] == b);
                        if k < i as int {
                            assert(pre[k] != b);
                        }
                        if (i as int) < k {
                            assert(pre[i as int] != b);
                        }
                    }
                    let post = pre.remove(i as int);
                    assert forall|k: int| 0 <= k < post.len() implies post[k] != b by {
                        assert(pre.no_duplicates());
                        if k < i {
                            assert(post[k] == pre[k]);
                        } else {
                            assert(post[k] == pre[k + 1]);
                        }
                    }
                }
                let inner = &mut self.sets[s.idx];
                inner.remove(i);
                return true;
            }
            i = i + 1;
        }
        assert(!old(self).set_seq(s).contains(b));
        false
    }

    /// Empty one set, leaving every other set alone.
    pub fn clear(&mut self, s: SetHandle)
        requires
            old(self).pool_wf(),
            old(self).set_wf(s),
        ensures
            final(self).pool_wf(),
            final(self).set_wf(s),
            final(self).others_unchanged(*old(self), s),
            final(self).set_seq(s) == Seq::<Block>::empty(),
    {
        let inner = &mut self.sets[s.idx];
        inner.clear();
    }

    pub fn size(&self, s: SetHandle) -> (r: usize)
        requires
            self.set_wf(s),
        ensures
            r == self.set_seq(s).len(),
    {
        self.sets[s.idx].len()
    }

    /// Copy the members out, in insertion order.
    pub fn members(&self, s: SetHandle) -> (r: Vec<Block>)
        requires
            self.set_wf(s),
        ensures
            r@ == self.set_seq(s),
    {
        let mut out: Vec<Block> = Vec::new();
        let n = self.sets[s.idx].len();
        let mut i: usize = 0;
        while i < n
            invariant
                self.set_wf(s),
                n == self.set_seq(s).len(),
                i <= n,
                out@ == self.set_seq(s).subrange(0, i as int),
            decreases n - i,
        {
            let v_i = self.sets[s.idx][i];
            out.push(v_i);
            proof {
                assert(self.set_seq(s).subrange(0, i + 1) =~= self.set_seq(s).subrange(
                    0,
                    i as int,
                ).push(self.set_seq(s)[i as int]));
            }
            i = i + 1;
        }
        proof {
            assert(self.set_seq(s).subrange(0, n as int) =~= self.set_seq(s));
        }
        out
    }
}

} // verus!
