//! Graph traversal over the block graph.
//!
//! Depth-first search starts at the entry block and follows successor
//! edges, using a visit map sized to the block pool. Traversal visits
//! exactly the blocks reachable from the entry; edges kept in the raw
//! predecessor and successor sets of unreachable blocks are ignored.

use vstd::prelude::*;
use crate::fun::{Block, Function};

verus! {

/// How many entries of a visit map are still unset.
pub open spec fn count_false(s: Seq<bool>) -> nat
    decreases s.len(),
{
    if s.len() == 0 {
        0
    } else {
        count_false(s.drop_last()) + if s.last() {
            0nat
        } else {
            1nat
        }
    }
}

/// Setting one unset entry lowers the count by exactly one.
pub proof fn lemma_count_false_update(s: Seq<bool>, i: int)
    requires
        0 <= i < s.len(),
        !s[i],
    ensures
        count_false(s.update(i, true)) + 1 == count_false(s),
    decreases s.len(),
{
    if i == s.len() - 1 {
        assert(s.update(i, true).drop_last() =~= s.drop_last());
    } else {
        lemma_count_false_update(s.drop_last(), i);
        assert(s.update(i, true).drop_last() =~= s.drop_last().update(i, true));
        assert(s.update(i, true).last() == s.last());
    }
}

/// Appending a fresh element keeps a sequence duplicate-free.
proof fn lemma_push_no_dup<T>(s: Seq<T>, x: T)
    requires
        s.no_duplicates(),
        !s.contains(x),
    ensures
        s.push(x).no_duplicates(),
        forall|y: T| #[trigger] s.push(x).contains(y) <==> (s.contains(y) || y == x),
{
    let u = s.push(x);
    assert forall|a: int, b: int| 0 <= a < u.len() && 0 <= b < u.len() && a != b implies u[a]
        != u[b] by {
        if a < s.len() && b < s.len() {
        } else if a < s.len() {
            assert(u[b] == x);
            assert(s.contains(s[a]));
        } else {
            assert(u[a] == x);
            assert(s.contains(s[b]));
        }
    }
    assert forall|y: T| #[trigger] u.contains(y) implies (s.contains(y) || y == x) by {
        let q = choose|q: int| 0 <= q < u.len() && u[q] == y;
        if q < s.len() {
            assert(s[q] == y);
        }
    }
    assert forall|y: T| s.contains(y) implies u.contains(y) by {
        let q = choose|q: int| 0 <= q < s.len() && s[q] == y;
        assert(u[q] == y);
    }
    assert(u.contains(x)) by {
        assert(u.last() == x);
    }
}

/// Dropping the last element of a duplicate-free sequence keeps exactly
/// the other elements.
proof fn lemma_drop_last_contains<T>(s: Seq<T>)
    requires
        s.no_duplicates(),
        s.len() > 0,
    ensures
        forall|y: T|
            #[trigger] s.drop_last().contains(y) <==> (s.contains(y) && y != s.last()),
        s.drop_last().no_duplicates(),
{
    let d = s.drop_last();
    assert forall|y: T| #[trigger] d.contains(y) implies (s.contains(y) && y != s.last()) by {
        let q = choose|q: int| 0 <= q < d.len() && d[q] == y;
        assert(s[q] == y);
    }
    assert forall|y: T| s.contains(y) && y != s.last() implies d.contains(y) by {
        let q = choose|q: int| 0 <= q < s.len() && s[q] == y;
        assert(q < s.len() - 1);
        assert(d[q] == y);
    }
}


impl Function {
    /// The sequence is a walk from the entry block to `b` along
    /// successor edges.
    pub open spec fn is_path(self, path: Seq<Block>, b: Block) -> bool {
        &&& path.len() > 0
        &&& self.entry_block == Some(path[0])
        &&& path.last() == b
        &&& forall|i: int|
            0 <= i < path.len() - 1 ==> self.valid_block(#[trigger] path[i]) && self.succs_seq(
                path[i],
            ).contains(path[i + 1])
    }

    /// The block is reachable from the entry along successor edges.
    pub open spec fn reachable(self, b: Block) -> bool {
        exists|path: Seq<Block>| self.is_path(path, b)
    }

    /// The entry block reaches itself.
    pub proof fn lemma_entry_reachable(self, e: Block)
        requires
            self.entry_block == Some(e),
        ensures
            self.reachable(e),
    {
        let path = seq![e];
        assert(self.is_path(path, e));
    }

    /// One successor step preserves reachability.
    pub proof fn lemma_reachable_step(self, p: Block, b: Block)
        requires
            self.valid_block(p),
            self.reachable(p),
            self.succs_seq(p).contains(b),
        ensures
            self.reachable(b),
    {
        let path = choose|path: Seq<Block>| self.is_path(path, p);
        let path2 = path.push(b);
        assert(self.is_path(path2, b)) by {
            assert(path2[0] == path[0]);
            assert(path2.last() == b);
            assert forall|i: int|
                0 <= i < path2.len() - 1 implies self.valid_block(#[trigger] path2[i])
                && self.succs_seq(path2[i]).contains(path2[i + 1]) by {
                if i < path.len() - 1 {
                    assert(path2[i] == path[i]);
                    assert(path2[i + 1] == path[i + 1]);
                } else {
                    assert(path2[i] == path.last());
                    assert(path2[i] == p);
                    assert(path2[i + 1] == b);
                }
            }
        }
    }

    /// Any set of blocks that holds the entry and is closed under
    /// successor edges holds the endpoint of every walk from the entry.
    proof fn lemma_path_in_closed(self, vis: Seq<bool>, path: Seq<Block>, b: Block)
        requires
            vis.len() == self.blocks@.len(),
            match self.entry_block {
                Some(e) => self.valid_block(e) && vis[e.0 as int],
                None => false,
            },
            forall|p: Block, j: int|
                #![trigger self.succs_seq(p)[j]]
                self.valid_block(p) && vis[p.0 as int] && 0 <= j < self.succs_seq(p).len()
                    ==> vis[(self.succs_seq(p)[j]).0 as int],
            self.is_path(path, b),
            self.valid_block(b),
        ensures
            vis[b.0 as int],
        decreases path.len(),
    {
        if path.len() == 1 {
            assert(path[0] == b);
        } else {
            let p = path[path.len() - 2];
            let prefix = path.drop_last();
            assert(self.valid_block(p));
            assert(self.is_path(prefix, p)) by {
                assert(prefix[0] == path[0]);
                assert(prefix.last() == p);
                assert forall|i: int|
                    0 <= i < prefix.len() - 1 implies self.valid_block(#[trigger] prefix[i])
                    && self.succs_seq(prefix[i]).contains(prefix[i + 1]) by {
                    assert(prefix[i] == path[i]);
                    assert(prefix[i + 1] == path[i + 1]);
                }
            }
            self.lemma_path_in_closed(vis, prefix, p);
            assert(self.succs_seq(p).contains(b)) by {
                assert(path[path.len() - 2] == p);
                assert(path[path.len() - 1] == b);
            }
            let j = choose|j: int| 0 <= j < self.succs_seq(p).len() && self.succs_seq(p)[j] == b;
            assert(vis[(self.succs_seq(p)[j]).0 as int]);
        }
    }

    /// Any set of blocks that holds the entry and is closed under
    /// successor edges holds every reachable block.
    pub proof fn lemma_reachable_in_closed(self, vis: Seq<bool>, b: Block)
        requires
            vis.len() == self.blocks@.len(),
            match self.entry_block {
                Some(e) => self.valid_block(e) && vis[e.0 as int],
                None => false,
            },
            forall|p: Block, j: int|
                #![trigger self.succs_seq(p)[j]]
                self.valid_block(p) && vis[p.0 as int] && 0 <= j < self.succs_seq(p).len()
                    ==> vis[(self.succs_seq(p)[j]).0 as int],
            self.reachable(b),
            self.valid_block(b),
        ensures
            vis[b.0 as int],
    {
        let path = choose|path: Seq<Block>| self.is_path(path, b);
        self.lemma_path_in_closed(vis, path, b);
    }

    /// A visit map of the block pool's size, all unset.
    fn fresh_visit_map(&self) -> (r: Vec<bool>)
        ensures
            r@.len() == self.blocks@.len(),
            forall|i: int| 0 <= i < r@.len() ==> !r@[i],
    {
        let n = self.blocks.len();
        let mut visited: Vec<bool> = Vec::new();
        let mut k: usize = 0;
        while k < n
            invariant
                k <= n,
                visited@.len() == k,
                forall|i: int| 0 <= i < k ==> !visited@[i],
            decreases n - k,
        {
            visited.push(false);
            k = k + 1;
        }
        visited
    }

    /// Depth-first search from the entry. Visits exactly the reachable
    /// blocks, each once, in a deterministic order derived from the
    /// successor sets' insertion order.
    #[verifier::loop_isolation(false)]
    pub fn dfs_iter(&self) -> (r: Vec<Block>)
        requires
            self.wf(),
            self.entry_block is Some,
        ensures
            r@.no_duplicates(),
            forall|b: Block| #[trigger] r@.contains(b) ==> self.valid_block(b) && self.reachable(b),
            forall|b: Block|
                self.valid_block(b) && self.reachable(b) ==> #[trigger] r@.contains(b),
            r@.len() > 0 && r@[0] == self.entry_block.unwrap(),
    {
        let entry = self.block_entry();
        let mut visited: Vec<bool> = self.fresh_visit_map();
        let mut result: Vec<Block> = Vec::new();
        let mut stack: Vec<Block> = Vec::new();
        visited[entry.0] = true;
        stack.push(entry);
        proof {
            self.lemma_entry_reachable(entry);
            assert(stack@ =~= seq![entry]);
            assert(!Seq::<Block>::empty().contains(entry));
            lemma_push_no_dup(Seq::<Block>::empty(), entry);
            assert(stack@ == Seq::<Block>::empty().push(entry));
            assert forall|b2: Block| self.valid_block(b2) implies (visited@[b2.0 as int] <==> (
            result@.contains(b2) || stack@.contains(b2))) by {
                if b2 == entry {
                    assert(stack@.contains(b2));
                } else {
                    assert(!visited@[b2.0 as int]);
                    assert(!result@.contains(b2));
                }
            }
        }
        while stack.len() > 0
            invariant
                visited@.len() == self.blocks@.len(),
                visited@[entry.0 as int],
                result@.len() == 0 ==> stack@ == seq![entry],
                result@.len() > 0 ==> result@[0] == entry,
                result@.no_duplicates(),
                stack@.no_duplicates(),
                forall|b: Block| result@.contains(b) ==> !(#[trigger] stack@.contains(b)),
                forall|i: int|
                    0 <= i < result@.len() ==> self.valid_block(#[trigger] result@[i])
                        && self.reachable(result@[i]),
                forall|i: int|
                    0 <= i < stack@.len() ==> self.valid_block(#[trigger] stack@[i])
                        && self.reachable(stack@[i]),
                forall|b: Block|
                    self.valid_block(b) ==> (visited@[b.0 as int] <==> (result@.contains(b)
                        || stack@.contains(b))),
                // every handled block's successors are all visited
                forall|p: Block, j: int|
                    #![trigger self.succs_seq(p)[j]]
                    result@.contains(p) && 0 <= j < self.succs_seq(p).len() ==> visited@[(
                    self.succs_seq(p)[j]).0 as int],
            decreases count_false(visited@) + stack@.len(),
        {
            let ghost stack_before = stack@;
            let ghost result_prev = result@;
            let b = stack.pop().unwrap();
            let ghost base = count_false(visited@) + stack@.len();
            proof {
                lemma_drop_last_contains(stack_before);
                assert(stack_before.contains(b)) by {
                    assert(stack_before.last() == b);
                }
                assert(!result@.contains(b));
                assert(!stack@.contains(b));
                lemma_push_no_dup(result_prev, b);
            }
            result.push(b);
            let ghost result_now = result@;
            proof {
                assert(result@ == result_prev.push(b));
                if result_prev.len() == 0 {
                    assert(b == entry) by {
                        assert(stack_before == seq![entry]);
                        assert(stack_before.last() == entry);
                    }
                    assert(result@[0] == entry);
                } else {
                    assert(result@[0] == result_prev[0]);
                }
                assert forall|b2: Block| self.valid_block(b2) implies (visited@[b2.0 as int] <==> (
                result@.contains(b2) || stack@.contains(b2))) by {
                    assert(result@.contains(b2) <==> (result_prev.contains(b2) || b2 == b));
                    assert(stack@.contains(b2) <==> (stack_before.contains(b2) && b2 != b));
                }
                assert forall|p: Block, j2: int|
                    #![trigger self.succs_seq(p)[j2]]
                    result@.contains(p) && p != b && 0 <= j2 < self.succs_seq(p).len() implies
                    visited@[(self.succs_seq(p)[j2]).0 as int] by {
                    assert(result_prev.contains(p));
                }
            }
            let succs = self.block_successors(b);
            let m = succs.len();
            let mut j: usize = 0;
            while j < m
                invariant
                    j <= m,
                    m == self.succs_seq(b).len(),
                    succs@ == self.succs_seq(b),
                    self.valid_block(b),
                    self.reachable(b),
                    result@ == result_now,
                    result@.contains(b),
                    visited@.len() == self.blocks@.len(),
                    visited@[entry.0 as int],
                    result@.no_duplicates(),
                    stack@.no_duplicates(),
                    forall|b2: Block| result@.contains(b2) ==> !(#[trigger] stack@.contains(b2)),
                    forall|i: int|
                        0 <= i < result@.len() ==> self.valid_block(#[trigger] result@[i])
                            && self.reachable(result@[i]),
                    forall|i: int|
                        0 <= i < stack@.len() ==> self.valid_block(#[trigger] stack@[i])
                            && self.reachable(stack@[i]),
                    forall|b2: Block|
                        self.valid_block(b2) ==> (visited@[b2.0 as int] <==> (result@.contains(b2)
                            || stack@.contains(b2))),
                    forall|p: Block, j2: int|
                        #![trigger self.succs_seq(p)[j2]]
                        result@.contains(p) && p != b && 0 <= j2 < self.succs_seq(p).len()
                            ==> visited@[(self.succs_seq(p)[j2]).0 as int],
                    forall|j2: int|
                        0 <= j2 < j ==> visited@[(#[trigger] self.succs_seq(b)[j2]).0 as int],
                    count_false(visited@) + stack@.len() == base,
                decreases m - j,
            {
                let s = succs[j];
                proof {
                    assert(self.block_wf(b));
                    assert(self.valid_block(self.succs_seq(b)[j as int]));
                    self.lemma_reachable_step(b, s);
                }
                if !visited[s.0] {
                    let ghost visited_before = visited@;
                    let ghost stack_small = stack@;
                    visited[s.0] = true;
                    stack.push(s);
                    proof {
                        lemma_count_false_update(visited_before, s.0 as int);
                        assert(!stack_small.contains(s));
                        lemma_push_no_dup(stack_small, s);
                        assert forall|b2: Block| self.valid_block(b2) implies (visited@[b2.0 as int]
                            <==> (result@.contains(b2) || stack@.contains(b2))) by {
                            if b2 != s {
                                assert(visited@[b2.0 as int] == visited_before[b2.0 as int]);
                            }
                        }
                        assert forall|p: Block, j2: int|
                            #![trigger self.succs_seq(p)[j2]]
                            result@.contains(p) && p != b && 0 <= j2 < self.succs_seq(p).len()
                                implies visited@[(self.succs_seq(p)[j2]).0 as int] by {
                            let q = choose|q: int| 0 <= q < result@.len() && result@[q] == p;
                            assert(self.valid_block(result@[q]));
                            assert(self.block_wf(p));
                            assert(self.valid_block(self.succs_seq(p)[j2]));
                            assert(visited_before[(self.succs_seq(p)[j2]).0 as int]);
                        }
                        assert forall|j2: int| 0 <= j2 < j + 1 implies visited@[(
                        #[trigger] self.succs_seq(b)[j2]).0 as int] by {
                            if j2 < j {
                                assert(visited_before[(self.succs_seq(b)[j2]).0 as int]);
                            } else {
                                assert(self.succs_seq(b)[j2] == s);
                            }
                        }
                    }
                }
                j = j + 1;
            }
        }
        proof {
            assert forall|b: Block|
                self.valid_block(b) && self.reachable(b) implies #[trigger] result@.contains(b) by {
                self.lemma_reachable_in_closed(visited@, b);
                assert(visited@[b.0 as int]);
            }
            assert(result@.len() > 0) by {
                self.lemma_entry_reachable(entry);
                assert(result@.contains(entry));
                let q = choose|q: int| 0 <= q < result@.len() && result@[q] == entry;
            }
            assert(result@[0] == entry);
            assert(self.entry_block.unwrap() == entry);
        }
        result
    }
}

/// One suspended step of a depth-first walk: a block and the index of
/// the next successor to examine.
struct Frame {
    block: Block,
    next: usize,
}

/// The blocks of a frame stack, outermost first.
spec fn frame_blocks(frames: Seq<Frame>) -> Seq<Block> {
    frames.map_values(|fr: Frame| fr.block)
}

/// Work left in a frame stack: one unit per frame plus one per
/// unexamined successor.
spec fn frames_potential(f: Function, frames: Seq<Frame>) -> int
    decreases frames.len(),
{
    if frames.len() == 0 {
        0
    } else {
        frames_potential(f, frames.drop_last()) + 1 + (f.succs_seq(frames.last().block).len()
            - frames.last().next)
    }
}

proof fn lemma_frames_potential_nonneg(f: Function, frames: Seq<Frame>)
    requires
        forall|k: int|
            0 <= k < frames.len() ==> (#[trigger] frames[k]).next <= f.succs_seq(
                frames[k].block,
            ).len(),
    ensures
        frames_potential(f, frames) >= 0,
    decreases frames.len(),
{
    if frames.len() > 0 {
        lemma_frames_potential_nonneg(f, frames.drop_last());
    }
}

proof fn lemma_frames_potential_push(f: Function, frames: Seq<Frame>, fr: Frame)
    ensures
        frames_potential(f, frames.push(fr)) == frames_potential(f, frames) + 1 + (f.succs_seq(
            fr.block,
        ).len() - fr.next),
{
    assert(frames.push(fr).drop_last() =~= frames);
}

proof fn lemma_frames_potential_pop(f: Function, frames: Seq<Frame>)
    requires
        frames.len() > 0,
    ensures
        frames_potential(f, frames) == frames_potential(f, frames.drop_last()) + 1 + (f.succs_seq(
            frames.last().block,
        ).len() - frames.last().next),
{
}

proof fn lemma_frames_potential_bump(f: Function, frames: Seq<Frame>, fr: Frame)
    requires
        frames.len() > 0,
        fr.block == frames.last().block,
        fr.next == frames.last().next + 1,
    ensures
        frames_potential(f, frames.update(frames.len() - 1, fr)) == frames_potential(f, frames)
            - 1,
{
    let u = frames.update(frames.len() - 1, fr);
    assert(u.drop_last() =~= frames.drop_last());
    assert(u.last() == fr);
}

impl Function {
    /// Post-order depth-first search from the entry: every block is
    /// emitted after all of its successors have been examined. Visits
    /// exactly the reachable blocks, each once.
    #[verifier::loop_isolation(false)]
    pub fn dfs_post_order_iter(&self) -> (r: Vec<Block>)
        requires
            self.wf(),
            self.entry_block is Some,
        ensures
            r@.no_duplicates(),
            forall|b: Block| #[trigger] r@.contains(b) ==> self.valid_block(b) && self.reachable(b),
            forall|b: Block|
                self.valid_block(b) && self.reachable(b) ==> #[trigger] r@.contains(b),
            r@.len() > 0 && r@.last() == self.entry_block.unwrap(),
    {
        let entry = self.block_entry();
        let mut visited: Vec<bool> = self.fresh_visit_map();
        let mut result: Vec<Block> = Vec::new();
        let mut frames: Vec<Frame> = Vec::new();
        visited[entry.0] = true;
        frames.push(Frame { block: entry, next: 0 });
        proof {
            self.lemma_entry_reachable(entry);
            assert(frame_blocks(frames@) =~= seq![entry]);
            assert(!Seq::<Block>::empty().contains(entry));
            lemma_push_no_dup(Seq::<Block>::empty(), entry);
            assert forall|b2: Block| self.valid_block(b2) implies (visited@[b2.0 as int] <==> (
            result@.contains(b2) || frame_blocks(frames@).contains(b2))) by {
                if b2 == entry {
                    assert(frame_blocks(frames@)[0] == entry);
                } else {
                    assert(!visited@[b2.0 as int]);
                    assert(!result@.contains(b2));
                }
            }
        }
        while frames.len() > 0
            invariant
                visited@.len() == self.blocks@.len(),
                visited@[entry.0 as int],
                frames@.len() > 0 ==> frames@[0].block == entry,
                frames@.len() == 0 ==> result@.len() > 0 && result@.last() == entry,
                result@.no_duplicates(),
                frame_blocks(frames@).no_duplicates(),
                forall|b: Block|
                    result@.contains(b) ==> !(#[trigger] frame_blocks(frames@).contains(b)),
                forall|i: int|
                    0 <= i < result@.len() ==> self.valid_block(#[trigger] result@[i])
                        && self.reachable(result@[i]),
                forall|k: int|
                    0 <= k < frames@.len() ==> self.valid_block((#[trigger] frames@[k]).block)
                        && self.reachable(frames@[k].block) && frames@[k].next <= self.succs_seq(
                        frames@[k].block,
                    ).len(),
                forall|b2: Block|
                    self.valid_block(b2) ==> (visited@[b2.0 as int] <==> (result@.contains(b2)
                        || frame_blocks(frames@).contains(b2))),
                // examined successors are visited
                forall|k: int, j: int|
                    #![trigger self.succs_seq(frames@[k].block)[j]]
                    0 <= k < frames@.len() && 0 <= j < frames@[k].next ==> visited@[(
                    self.succs_seq(frames@[k].block)[j]).0 as int],
                // emitted blocks have all successors visited
                forall|p: Block, j: int|
                    #![trigger self.succs_seq(p)[j]]
                    result@.contains(p) && 0 <= j < self.succs_seq(p).len() ==> visited@[(
                    self.succs_seq(p)[j]).0 as int],
            decreases count_false(visited@), frames_potential(*self, frames@),
        {
            proof {
                lemma_frames_potential_nonneg(*self, frames@);
            }
            let top = frames.len() - 1;
            let b = frames[top].block;
            let i = frames[top].next;
            let ghost frames_before = frames@;
            let ghost fseq_before = frame_blocks(frames@);
            proof {
                assert(frames_before[top as int].block == b);
                assert(fseq_before[top as int] == b);
                assert(fseq_before.contains(b));
                assert(self.valid_block(b));
                assert(self.block_wf(b));
            }
            let succs = self.block_successors(b);
            if i < succs.len() {
                let s = succs[i];
                frames[top].next = i + 1;
                proof {
                    lemma_frames_potential_bump(
                        *self,
                        frames_before,
                        Frame { block: b, next: (i + 1) as usize },
                    );
                    assert(frames@ == frames_before.update(
                        top as int,
                        Frame { block: b, next: (i + 1) as usize },
                    ));
                    assert(frame_blocks(frames@) =~= fseq_before);
                    assert(self.valid_block(self.succs_seq(b)[i as int]));
                    self.lemma_reachable_step(b, s);
                    assert forall|k: int, j: int|
                        #![trigger self.succs_seq(frames@[k].block)[j]]
                        0 <= k < frames@.len() && 0 <= j < frames@[k].next && (k != top || j
                            < i) implies visited@[(self.succs_seq(frames@[k].block)[j]).0 as int] by {
                        assert(frames_before[k].block == frames@[k].block);
                    }
                }
                if !visited[s.0] {
                    let ghost visited_before = visited@;
                    let ghost frames_mid = frames@;
                    let ghost fseq_mid = frame_blocks(frames@);
                    visited[s.0] = true;
                    frames.push(Frame { block: s, next: 0 });
                    proof {
                        assert(frames@[0] == frames_mid[0]);
                        lemma_count_false_update(visited_before, s.0 as int);
                        assert(fseq_mid =~= fseq_before);
                        assert(!fseq_mid.contains(s));
                        lemma_push_no_dup(fseq_mid, s);
                        assert(frame_blocks(frames@) =~= fseq_mid.push(s));
                        assert forall|b2: Block| self.valid_block(b2) implies (visited@[b2.0 as int]
                            <==> (result@.contains(b2) || frame_blocks(frames@).contains(b2))) by {
                            if b2 != s {
                                assert(visited@[b2.0 as int] == visited_before[b2.0 as int]);
                            }
                        }
                        assert forall|k: int, j: int|
                            #![trigger self.succs_seq(frames@[k].block)[j]]
                            0 <= k < frames@.len() && 0 <= j < frames@[k].next implies visited@[(
                        self.succs_seq(frames@[k].block)[j]).0 as int] by {
                            if k == frames@.len() - 1 {
                                assert(frames@[k].next == 0);
                            } else {
                                assert(frames@[k] == frames_mid[k]);
                                assert(self.valid_block(frames_mid[k].block));
                                assert(self.block_wf(frames_mid[k].block));
                                assert(self.valid_block(self.succs_seq(frames_mid[k].block)[j]));
                                if k == top && j == i {
                                    assert(self.succs_seq(b)[j] == s);
                                } else {
                                    assert(visited_before[(self.succs_seq(frames_mid[k].block)[j]).0 as int]);
                                }
                            }
                        }
                        assert forall|p: Block, j: int|
                            #![trigger self.succs_seq(p)[j]]
                            result@.contains(p) && 0 <= j < self.succs_seq(p).len() implies
                            visited@[(self.succs_seq(p)[j]).0 as int] by {
                            let q = choose|q: int| 0 <= q < result@.len() && result@[q] == p;
                            assert(self.valid_block(result@[q]));
                            assert(self.block_wf(p));
                            assert(self.valid_block(self.succs_seq(p)[j]));
                            assert(visited_before[(self.succs_seq(p)[j]).0 as int]);
                        }
                    }
                } else {
                    proof {
                        assert forall|k: int, j: int|
                            #![trigger self.succs_seq(frames@[k].block)[j]]
                            0 <= k < frames@.len() && 0 <= j < frames@[k].next implies visited@[(
                        self.succs_seq(frames@[k].block)[j]).0 as int] by {
                            if k == top && j == i {
                                assert(self.succs_seq(b)[j] == s);
                            }
                        }
                    }
                }
            } else {
                // all successors examined: emit the block
                let fr = frames.pop().unwrap();
                let ghost result_prev = result@;
                proof {
                    assert(fr.block == b);
                    assert(frames@ =~= frames_before.drop_last());
                    lemma_frames_potential_pop(*self, frames_before);
                    assert(frames_before.last().block == b);
                    assert(frames_before.last().next == i);
                    assert(frames_potential(*self, frames@) == frames_potential(
                        *self,
                        frames_before,
                    ) - 1);
                    lemma_drop_last_contains(fseq_before);
                    assert(frame_blocks(frames@) =~= fseq_before.drop_last());
                    assert(!result@.contains(b));
                    lemma_push_no_dup(result_prev, b);
                }
                result.push(b);
                proof {
                    assert(result@ == result_prev.push(b));
                    if frames@.len() == 0 {
                        assert(frames_before[0].block == entry);
                        assert(frames_before.len() == 1);
                        assert(b == entry);
                        assert(result@.last() == entry);
                    } else {
                        assert(frames@[0] == frames_before[0]);
                    }
                    assert forall|b2: Block| self.valid_block(b2) implies (visited@[b2.0 as int]
                        <==> (result@.contains(b2) || frame_blocks(frames@).contains(b2))) by {
                        assert(result@.contains(b2) <==> (result_prev.contains(b2) || b2 == b));
                        assert(frame_blocks(frames@).contains(b2) <==> (
                        fseq_before.contains(b2) && b2 != b));
                    }
                    assert forall|p: Block, j: int|
                        #![trigger self.succs_seq(p)[j]]
                        result@.contains(p) && 0 <= j < self.succs_seq(p).len() implies visited@[(
                    self.succs_seq(p)[j]).0 as int] by {
                        if p == b {
                            assert(i == self.succs_seq(b).len());
                            assert(frames_before[top as int].next == i);
                            assert(visited@[(self.succs_seq(frames_before[top as int].block)[j]).0
                                as int]);
                        } else {
                            assert(result_prev.contains(p));
                        }
                    }
                    assert forall|k: int, j: int|
                        #![trigger self.succs_seq(frames@[k].block)[j]]
                        0 <= k < frames@.len() && 0 <= j < frames@[k].next implies visited@[(
                    self.succs_seq(frames@[k].block)[j]).0 as int] by {
                        assert(frames@[k] == frames_before[k]);
                        assert(visited@[(self.succs_seq(frames_before[k].block)[j]).0 as int]);
                    }
                }
            }
            proof {
                lemma_frames_potential_nonneg(*self, frames@);
            }
        }
        proof {
            assert forall|b: Block|
                self.valid_block(b) && self.reachable(b) implies #[trigger] result@.contains(b) by {
                self.lemma_reachable_in_closed(visited@, b);
                assert(visited@[b.0 as int]);
            }
            assert(result@.len() > 0) by {
                self.lemma_entry_reachable(entry);
                assert(result@.contains(entry));
                let q = choose|q: int| 0 <= q < result@.len() && result@[q] == entry;
            }
            assert(result@.last() == entry);
            assert(self.entry_block.unwrap() == entry);
        }
        result
    }
}

/// One outgoing edge of a block: the successor and its position in the
/// block's successor order, which the DOT rendering uses as the edge
/// label.
#[derive(Copy, Clone, Debug, PartialEq, Eq, Hash, Structural)]
pub struct BlockEdge(pub Block, pub usize);

impl Function {
    /// The outgoing edges of a block, in successor order.
    pub fn block_edges(&self, b: Block) -> (r: Vec<BlockEdge>)
        requires
            self.wf(),
            self.valid_block(b),
        ensures
            r@.len() == self.succs_seq(b).len(),
            forall|i: int|
                0 <= i < r@.len() ==> #[trigger] r@[i] == BlockEdge(
                    self.succs_seq(b)[i],
                    i as usize,
                ),
    {
        let succs = self.block_successors(b);
        let mut out: Vec<BlockEdge> = Vec::new();
        let n = succs.len();
        let mut i: usize = 0;
        while i < n
            invariant
                i <= n,
                n == self.succs_seq(b).len(),
                succs@ == self.succs_seq(b),
                out@.len() == i,
                forall|j: int|
                    0 <= j < i ==> #[trigger] out@[j] == BlockEdge(
                        self.succs_seq(b)[j],
                        j as usize,
                    ),
            decreases n - i,
        {
            out.push(BlockEdge(succs[i], i));
            i = i + 1;
        }
        out
    }
}

} // verus!
