use vstd::prelude::*;

verus! {

use crate::dfg::Block;
use crate::insn::Insn;

/// The ordering of blocks inside a function and of instructions inside each
/// block. An instruction is attached to at most one block and appears there
/// exactly once.
#[derive(Debug)]
pub struct Layout {
    pub block_order: Vec<Block>,
    pub block_insns: Vec<Vec<Insn>>,
    pub insn_block: Vec<Option<Block>>,
}

impl Layout {
    /// `b` has been appended to the function's block order.
    pub open spec fn is_appended(self, b: Block) -> bool {
        self.block_order@.contains(b)
    }

    /// `i` currently sits in some block.
    pub open spec fn is_inserted(self, i: Insn) -> bool {
        (i.0 as int) < self.insn_block@.len() && self.insn_block@[i.0 as int] is Some
    }

    pub open spec fn block_of(self, i: Insn) -> Option<Block> {
        if (i.0 as int) < self.insn_block@.len() {
            self.insn_block@[i.0 as int]
        } else {
            None
        }
    }

    pub open spec fn insns_in(self, b: Block) -> Seq<Insn> {
        if (b.0 as int) < self.block_insns@.len() {
            self.block_insns@[b.0 as int]@
        } else {
            Seq::<Insn>::empty()
        }
    }

    /// Internal consistency against a graph with `nb` blocks and `ni`
    /// instructions: the order lists each appended block once, every listed
    /// instruction knows its block and appears exactly once there, and all
    /// handles are in range.
    pub open spec fn wf(self, nb: int, ni: int) -> bool {
        &&& forall|k: int|
            0 <= k < self.block_order@.len() ==> (#[trigger] self.block_order@[k]).0 < nb
        &&& forall|k1: int, k2: int|
            0 <= k1 < self.block_order@.len() && 0 <= k2 < self.block_order@.len()
                && self.block_order@[k1] == self.block_order@[k2] ==> k1 == k2
        &&& self.block_insns@.len() <= nb
        &&& self.insn_block@.len() <= ni
        &&& forall|b: int, p: int|
            0 <= b < self.block_insns@.len() && 0 <= p < self.block_insns@[b]@.len() ==> ({
                let i = #[trigger] self.block_insns@[b]@[p];
                &&& (i.0 as int) < self.insn_block@.len()
                &&& (match self.insn_block@[i.0 as int] {
                    Some(ib) => ib.0 as int == b,
                    None => false,
                })
            })
        &&& forall|b: int, p1: int, p2: int|
            0 <= b < self.block_insns@.len() && 0 <= p1 < self.block_insns@[b]@.len() && 0 <= p2
                < self.block_insns@[b]@.len() && #[trigger] self.block_insns@[b]@[p1]
                == #[trigger] self.block_insns@[b]@[p2] ==> p1 == p2
        &&& forall|i: int|
            0 <= i < self.insn_block@.len() ==> match #[trigger] self.insn_block@[i] {
                Some(b) => (b.0 as int) < self.block_insns@.len()
                    && self.block_insns@[b.0 as int]@.contains(Insn(i as usize))
                    && self.block_order@.contains(b),
                None => true,
            }
    }

    pub fn new() -> (r: Layout)
        ensures
            r.block_order@.len() == 0,
            r.block_insns@.len() == 0,
            r.insn_block@.len() == 0,
            forall|nb: int, ni: int| 0 <= nb && 0 <= ni ==> r.wf(nb, ni),
    {
        Layout { block_order: Vec::new(), block_insns: Vec::new(), insn_block: Vec::new() }
    }

    /// Grows the per-block instruction lists so that `b` has a slot.
    #[verifier::loop_isolation(false)]
    fn ensure_block_slot(&mut self, b: Block, Ghost(nb): Ghost<int>, Ghost(ni): Ghost<int>)
        requires
            old(self).wf(nb, ni),
            (b.0 as int) < nb,
        ensures
            final(self).wf(nb, ni),
            final(self).block_insns@.len() > b.0 as int,
            final(self).block_order@ == old(self).block_order@,
            final(self).insn_block@ == old(self).insn_block@,
            forall|b2: int|
                0 <= b2 < old(self).block_insns@.len() ==> final(self).block_insns@[b2] == old(
                    self,
                ).block_insns@[b2],
            forall|b2: Block| final(self).insns_in(b2) == old(self).insns_in(b2),
    {
        while self.block_insns.len() <= b.0
            invariant
                self.wf(nb, ni),
                self.block_order@ == old(self).block_order@,
                self.insn_block@ == old(self).insn_block@,
                self.block_insns@.len() >= old(self).block_insns@.len(),
                forall|b2: int|
                    0 <= b2 < old(self).block_insns@.len() ==> self.block_insns@[b2] == old(
                        self,
                    ).block_insns@[b2],
                forall|b2: int|
                    old(self).block_insns@.len() <= b2 < self.block_insns@.len()
                        ==> self.block_insns@[b2]@.len() == 0,
                self.block_insns@.len() <= nb,
            decreases b.0 + 1 - self.block_insns@.len(),
        {
            self.block_insns.push(Vec::new());
        }
        proof {
            assert forall|b2: Block| final(self).insns_in(b2) == old(self).insns_in(b2) by {}
        }
    }

    /// Grows the instruction-to-block map so that `i` has a slot.
    #[verifier::loop_isolation(false)]
    fn ensure_insn_slot(&mut self, i: Insn, Ghost(nb): Ghost<int>, Ghost(ni): Ghost<int>)
        requires
            old(self).wf(nb, ni),
            (i.0 as int) < ni,
        ensures
            final(self).wf(nb, ni),
            final(self).insn_block@.len() > i.0 as int,
            final(self).block_order@ == old(self).block_order@,
            final(self).block_insns@ == old(self).block_insns@,
            forall|j: int|
                0 <= j < old(self).insn_block@.len() ==> final(self).insn_block@[j] == old(
                    self,
                ).insn_block@[j],
            forall|j: int|
                old(self).insn_block@.len() <= j < final(self).insn_block@.len()
                    ==> final(self).insn_block@[j] is None,
    {
        while self.insn_block.len() <= i.0
            invariant
                self.wf(nb, ni),
                self.block_order@ == old(self).block_order@,
                self.block_insns@ == old(self).block_insns@,
                self.insn_block@.len() >= old(self).insn_block@.len(),
                forall|j: int|
                    0 <= j < old(self).insn_block@.len() ==> self.insn_block@[j] == old(
                        self,
                    ).insn_block@[j],
                forall|j: int|
                    old(self).insn_block@.len() <= j < self.insn_block@.len()
                        ==> self.insn_block@[j] is None,
                self.insn_block@.len() <= ni,
            decreases i.0 + 1 - self.insn_block@.len(),
        {
            self.insn_block.push(None);
        }
    }

    /// Appends `b` to the end of the block order.
    pub fn append_block(&mut self, b: Block, Ghost(nb): Ghost<int>, Ghost(ni): Ghost<int>)
        requires
            old(self).wf(nb, ni),
            (b.0 as int) < nb,
            !old(self).is_appended(b),
        ensures
            final(self).wf(nb, ni),
            final(self).block_order@ == old(self).block_order@.push(b),
            final(self).insn_block@ == old(self).insn_block@,
            forall|b2: Block| final(self).insns_in(b2) == old(self).insns_in(b2),
            final(self).is_appended(b),
    {
        self.block_order.push(b);
        proof {
            assert forall|k1: int, k2: int|
                0 <= k1 < self.block_order@.len() && 0 <= k2 < self.block_order@.len()
                    && self.block_order@[k1] == self.block_order@[k2] implies k1 == k2 by {
                let o = old(self).block_order@;
                if k1 < o.len() && k2 < o.len() {
                } else if k1 < o.len() && k2 == o.len() {
                    assert(o.contains(o[k1])) by {
                        assert(o[k1] == self.block_order@[k1]);
                    }
                } else if k2 < o.len() && k1 == o.len() {
                    assert(o.contains(o[k2]));
                }
            }
            assert forall|i: int|
                0 <= i < self.insn_block@.len() implies match #[trigger] self.insn_block@[i] {
                Some(bb) => (bb.0 as int) < self.block_insns@.len()
                    && self.block_insns@[bb.0 as int]@.contains(Insn(i as usize))
                    && self.block_order@.contains(bb),
                None => true,
            } by {
                match self.insn_block@[i] {
                    Some(bb) => {
                        assert(old(self).block_order@.contains(bb));
                        let k = choose|k: int|
                            0 <= k < old(self).block_order@.len() && old(self).block_order@[k]
                                == bb;
                        assert(self.block_order@[k] == bb);
                    },
                    None => {},
                }
            }
            assert(self.block_order@[self.block_order@.len() - 1] == b);
        }
    }

    /// Appends `i` at the end of block `b`.
    pub fn append_insn(&mut self, b: Block, i: Insn, Ghost(nb): Ghost<int>, Ghost(ni): Ghost<
        int,
    >)
        requires
            old(self).wf(nb, ni),
            (b.0 as int) < nb,
            (i.0 as int) < ni,
            old(self).is_appended(b),
            !old(self).is_inserted(i),
        ensures
            final(self).wf(nb, ni),
            final(self).block_order@ == old(self).block_order@,
            final(self).insns_in(b) == old(self).insns_in(b).push(i),
            forall|b2: Block| b2 != b ==> final(self).insns_in(b2) == old(self).insns_in(b2),
            final(self).block_of(i) == Some(b),
            forall|j: Insn| j != i ==> final(self).block_of(j) == old(self).block_of(j),
            final(self).is_inserted(i),
    {
        self.insert_insn_at_end(b, i, Ghost(nb), Ghost(ni))
    }

    /// Inserts `i` at the front of block `b` (where phi instructions go).
    pub fn prepend_insn(&mut self, b: Block, i: Insn, Ghost(nb): Ghost<int>, Ghost(ni): Ghost<
        int,
    >)
        requires
            old(self).wf(nb, ni),
            (b.0 as int) < nb,
            (i.0 as int) < ni,
            old(self).is_appended(b),
            !old(self).is_inserted(i),
        ensures
            final(self).wf(nb, ni),
            final(self).block_order@ == old(self).block_order@,
            final(self).insns_in(b) == old(self).insns_in(b).insert(0, i),
            forall|b2: Block| b2 != b ==> final(self).insns_in(b2) == old(self).insns_in(b2),
            final(self).block_of(i) == Some(b),
            forall|j: Insn| j != i ==> final(self).block_of(j) == old(self).block_of(j),
            final(self).is_inserted(i),
    {
        self.ensure_block_slot(b, Ghost(nb), Ghost(ni));
        self.ensure_insn_slot(i, Ghost(nb), Ghost(ni));
        let ghost mid = *self;
        self.block_insns[b.0].insert(0, i);
        self.insn_block[i.0] = Some(b);
        proof {
            self.lemma_insert_ok(mid, b, i, 0, nb, ni);
        }
    }

    fn insert_insn_at_end(&mut self, b: Block, i: Insn, Ghost(nb): Ghost<int>, Ghost(ni): Ghost<
        int,
    >)
        requires
            old(self).wf(nb, ni),
            (b.0 as int) < nb,
            (i.0 as int) < ni,
            old(self).is_appended(b),
            !old(self).is_inserted(i),
        ensures
            final(self).wf(nb, ni),
            final(self).block_order@ == old(self).block_order@,
            final(self).insns_in(b) == old(self).insns_in(b).push(i),
            forall|b2: Block| b2 != b ==> final(self).insns_in(b2) == old(self).insns_in(b2),
            final(self).block_of(i) == Some(b),
            forall|j: Insn| j != i ==> final(self).block_of(j) == old(self).block_of(j),
            final(self).is_inserted(i),
    {
        self.ensure_block_slot(b, Ghost(nb), Ghost(ni));
        self.ensure_insn_slot(i, Ghost(nb), Ghost(ni));
        let ghost mid = *self;
        let pos = self.block_insns[b.0].len();
        self.block_insns[b.0].insert(pos, i);
        self.insn_block[i.0] = Some(b);
        proof {
            assert(mid.insns_in(b).insert(mid.insns_in(b).len() as int, i) =~= mid.insns_in(
                b,
            ).push(i));
            self.lemma_insert_ok(mid, b, i, mid.insns_in(b).len() as int, nb, ni);
        }
    }

    /// Inserting one fresh instruction at any position of one block keeps
    /// the layout consistent.
    proof fn lemma_insert_ok(self, mid: Layout, b: Block, i: Insn, pos: int, nb: int, ni: int)
        requires
            mid.wf(nb, ni),
            (b.0 as int) < mid.block_insns@.len(),
            (i.0 as int) < mid.insn_block@.len(),
            (b.0 as int) < nb,
            (i.0 as int) < ni,
            mid.is_appended(b),
            !mid.is_inserted(i),
            0 <= pos <= mid.insns_in(b).len(),
            self.block_order@ == mid.block_order@,
            self.block_insns@ == mid.block_insns@.update(
                b.0 as int,
                self.block_insns@[b.0 as int],
            ),
            self.block_insns@[b.0 as int]@ == mid.block_insns@[b.0 as int]@.insert(pos, i),
            self.insn_block@ == mid.insn_block@.update(i.0 as int, Some(b)),
        ensures
            self.wf(nb, ni),
            self.insns_in(b) == mid.insns_in(b).insert(pos, i),
            forall|b2: Block| b2 != b ==> self.insns_in(b2) == mid.insns_in(b2),
            self.block_of(i) == Some(b),
            forall|j: Insn| j != i ==> self.block_of(j) == mid.block_of(j),
    {
        let l = self.block_insns@[b.0 as int]@;
        let o = mid.block_insns@[b.0 as int]@;
        assert forall|bb: int, p: int|
            0 <= bb < self.block_insns@.len() && 0 <= p < self.block_insns@[bb]@.len() implies ({
            let j = #[trigger] self.block_insns@[bb]@[p];
            &&& (j.0 as int) < self.insn_block@.len()
            &&& (match self.insn_block@[j.0 as int] {
                Some(ib) => ib.0 as int == bb,
                None => false,
            })
        }) by {
            if bb == b.0 as int {
                let j = self.block_insns@[bb]@[p];
                if p < pos {
                    assert(j == o[p]);
                    assert(j != i) by {
                        if j == i {
                            assert(mid.block_insns@[bb]@[p] == i);
                        }
                    }
                } else if p == pos {
                    assert(j == i);
                } else {
                    assert(j == o[p - 1]);
                    assert(j != i) by {
                        if j == i {
                            assert(mid.block_insns@[bb]@[p - 1] == i);
                        }
                    }
                }
            } else {
                let j = self.block_insns@[bb]@[p];
                assert(self.block_insns@[bb]@ == mid.block_insns@[bb]@);
                assert(j != i) by {
                    if j == i {
                        assert(mid.block_insns@[bb]@[p] == i);
                    }
                }
            }
        }
        assert forall|bb: int, p1: int, p2: int|
            0 <= bb < self.block_insns@.len() && 0 <= p1 < self.block_insns@[bb]@.len() && 0 <= p2
                < self.block_insns@[bb]@.len() && #[trigger] self.block_insns@[bb]@[p1]
                == #[trigger] self.block_insns@[bb]@[p2] implies p1 == p2 by {
            if bb == b.0 as int {
                let m1 = if p1 < pos { p1 } else { p1 - 1 };
                let m2 = if p2 < pos { p2 } else { p2 - 1 };
                if p1 != pos && p2 != pos {
                    assert(l[p1] == o[m1] && l[p2] == o[m2]);
                } else if p1 == pos && p2 != pos {
                    assert(l[p2] == o[m2]);
                    assert(o[m2] == i);
                    assert(mid.block_insns@[bb]@[m2] == i);
                    assert(mid.insn_block@[i.0 as int] is Some);
                } else if p2 == pos && p1 != pos {
                    assert(l[p1] == o[m1]);
                    assert(o[m1] == i);
                    assert(mid.block_insns@[bb]@[m1] == i);
                    assert(mid.insn_block@[i.0 as int] is Some);
                }
            }
        }
        assert forall|j: int|
            0 <= j < self.insn_block@.len() implies match #[trigger] self.insn_block@[j] {
            Some(bb) => (bb.0 as int) < self.block_insns@.len()
                && self.block_insns@[bb.0 as int]@.contains(Insn(j as usize))
                && self.block_order@.contains(bb),
            None => true,
        } by {
            if j == i.0 as int {
                assert(l[pos] == i);
                assert(l.contains(Insn(j as usize)));
            } else {
                match mid.insn_block@[j] {
                    Some(bb) => {
                        assert(mid.block_insns@[bb.0 as int]@.contains(Insn(j as usize)));
                        let p = choose|p: int|
                            0 <= p < mid.block_insns@[bb.0 as int]@.len()
                                && mid.block_insns@[bb.0 as int]@[p] == Insn(j as usize);
                        if bb.0 as int == b.0 as int {
                            if p < pos {
                                assert(l[p] == Insn(j as usize));
                            } else {
                                assert(l[p + 1] == Insn(j as usize));
                            }
                            assert(l.contains(Insn(j as usize)));
                        } else {
                            assert(self.block_insns@[bb.0 as int]@.contains(Insn(j as usize)));
                        }
                    },
                    None => {},
                }
            }
        }
        assert(self.insns_in(b) == l);
        assert(l =~= o.insert(pos, i));
    }

    /// Detaches `i` from its block; detaching an unattached instruction
    /// changes nothing.
    #[verifier::loop_isolation(false)]
    pub fn detach_insn(&mut self, i: Insn, Ghost(nb): Ghost<int>, Ghost(ni): Ghost<int>)
        requires
            old(self).wf(nb, ni),
        ensures
            final(self).wf(nb, ni),
            final(self).block_order@ == old(self).block_order@,
            !final(self).is_inserted(i),
            forall|j: Insn| j != i ==> final(self).block_of(j) == old(self).block_of(j),
            match old(self).block_of(i) {
                Some(b) => final(self).insns_in(b) == old(self).insns_in(b).remove(
                    old(self).insns_in(b).index_of(i),
                ) && (forall|b2: Block|
                    b2 != b ==> final(self).insns_in(b2) == old(self).insns_in(b2)),
                None => *final(self) == *old(self),
            },
    {
        if i.0 >= self.insn_block.len() {
            return ;
        }
        let blk_opt = self.insn_block[i.0];
        let b = match blk_opt {
            Some(b) => b,
            None => {
                return ;
            },
        };
        let n = self.block_insns[b.0].len();
        let mut p: usize = 0;
        while p < n
            invariant
                *self == *old(self),
                blk_opt == Some(b),
                old(self).block_of(i) == Some(b),
                (b.0 as int) < self.block_insns@.len(),
                n == self.block_insns@[b.0 as int]@.len(),
                p <= n,
                forall|q: int| 0 <= q < p ==> self.block_insns@[b.0 as int]@[q] != i,
            decreases n - p,
        {
            if self.block_insns[b.0][p] == i {
                let ghost mid = *self;
                self.block_insns[b.0].remove(p);
                self.insn_block[i.0] = None;
                proof {
                    let o = mid.block_insns@[b.0 as int]@;
                    let l = self.block_insns@[b.0 as int]@;
                    assert(o[p as int] == i);
                    assert(o.index_of(i) == p as int) by {
                        assert forall|q: int| 0 <= q < o.len() && o[q] == i implies q == p as int
                        by {}
                        assert(o.contains(i)) by {
                            assert(o[p as int] == i);
                        }
                    }
                    assert(l == o.remove(p as int));
                    assert forall|bb: int, q: int|
                        0 <= bb < self.block_insns@.len() && 0 <= q
                            < self.block_insns@[bb]@.len() implies ({
                        let j = #[trigger] self.block_insns@[bb]@[q];
                        &&& (j.0 as int) < self.insn_block@.len()
                        &&& (match self.insn_block@[j.0 as int] {
                            Some(ib) => ib.0 as int == bb,
                            None => false,
                        })
                    }) by {
                        if bb == b.0 as int {
                            let j = self.block_insns@[bb]@[q];
                            let m = if q < p as int { q } else { q + 1 };
                            assert(j == o[m]);
                            assert(j != i) by {
                                if j == i {
                                    assert(m == p as int);
                                }
                            }
                        } else {
                            let j = self.block_insns@[bb]@[q];
                            assert(self.block_insns@[bb]@ == mid.block_insns@[bb]@);
                            assert(j != i) by {
                                if j == i {
                                    assert(mid.block_insns@[bb]@[q] == i);
                                    assert(mid.insn_block@[i.0 as int] == Some(b));
                                }
                            }
                        }
                    }
                    assert forall|bb: int, p1: int, p2: int|
                        0 <= bb < self.block_insns@.len() && 0 <= p1
                            < self.block_insns@[bb]@.len() && 0 <= p2
                            < self.block_insns@[bb]@.len()
                            && #[trigger] self.block_insns@[bb]@[p1]
                            == #[trigger] self.block_insns@[bb]@[p2] implies p1 == p2 by {
                        if bb == b.0 as int {
                            let m1 = if p1 < p as int { p1 } else { p1 + 1 };
                            let m2 = if p2 < p as int { p2 } else { p2 + 1 };
                            assert(self.block_insns@[bb]@[p1] == o[m1]);
                            assert(self.block_insns@[bb]@[p2] == o[m2]);
                        }
                    }
                    assert forall|j: int|
                        0 <= j < self.insn_block@.len() implies match #[trigger] self
                        .insn_block@[j] {
                        Some(bb) => (bb.0 as int) < self.block_insns@.len()
                            && self.block_insns@[bb.0 as int]@.contains(Insn(j as usize))
                            && self.block_order@.contains(bb),
                        None => true,
                    } by {
                        if j != i.0 as int {
                            match mid.insn_block@[j] {
                                Some(bb) => {
                                    let q = choose|q: int|
                                        0 <= q < mid.block_insns@[bb.0 as int]@.len()
                                            && mid.block_insns@[bb.0 as int]@[q] == Insn(
                                            j as usize,
                                        );
                                    if bb.0 as int == b.0 as int {
                                        assert(q != p as int) by {
                                            if q == p as int {
                                                assert(mid.insn_block@[j] == Some(b));
                                                assert(o[q] == i);
                                            }
                                        }
                                        if q < p as int {
                                            assert(l[q] == Insn(j as usize));
                                        } else {
                                            assert(l[q - 1] == Insn(j as usize));
                                        }
                                        assert(l.contains(Insn(j as usize)));
                                    } else {
                                        assert(self.block_insns@[bb.0 as int]@.contains(
                                            Insn(j as usize),
                                        ));
                                    }
                                },
                                None => {},
                            }
                        }
                    }
                }
                return ;
            }
            p += 1;
        }
        proof {
            assert(old(self).insn_block@[i.0 as int] == Some(b));
            assert(self.block_insns@[b.0 as int]@.contains(i));
            let q = choose|q: int|
                0 <= q < self.block_insns@[b.0 as int]@.len() && self.block_insns@[b.0 as int]@[q]
                    == i;
            assert(false);
        }
    }


    /// Inserts `i` right after `at` in `at`'s block.
    #[verifier::loop_isolation(false)]
    pub fn insert_insn_after(&mut self, at: Insn, i: Insn, Ghost(nb): Ghost<int>, Ghost(
        ni,
    ): Ghost<int>)
        requires
            old(self).wf(nb, ni),
            (i.0 as int) < ni,
            old(self).is_inserted(at),
            !old(self).is_inserted(i),
        ensures
            final(self).wf(nb, ni),
            final(self).block_order@ == old(self).block_order@,
            old(self).block_of(at) matches Some(b) && final(self).block_of(i) == Some(b)
                && final(self).insns_in(b) == old(self).insns_in(b).insert(
                old(self).insns_in(b).index_of(at) + 1,
                i,
            ) && (forall|b2: Block| b2 != b ==> final(self).insns_in(b2) == old(self).insns_in(b2)),
            forall|j: Insn| j != i ==> final(self).block_of(j) == old(self).block_of(j),
            final(self).is_inserted(i),
    {
        let b = self.insn_block[at.0].unwrap();
        self.ensure_insn_slot(i, Ghost(nb), Ghost(ni));
        let ghost mid = *self;
        let n = self.block_insns[b.0].len();
        let mut p: usize = 0;
        while p < n
            invariant
                *self == mid,
                mid.is_inserted(at),
                mid.block_of(at) == Some(b),
                (b.0 as int) < self.block_insns@.len(),
                n == self.block_insns@[b.0 as int]@.len(),
                p <= n,
                forall|q: int| 0 <= q < p ==> self.block_insns@[b.0 as int]@[q] != at,
            decreases n - p,
        {
            if self.block_insns[b.0][p] == at {
                proof {
                    assert(self.block_insns@[b.0 as int]@[p as int] == at);
                    assert(self.insns_in(b).index_of(at) == p as int) by {
                        assert(self.insns_in(b).contains(at)) by {
                            assert(self.insns_in(b)[p as int] == at);
                        }
                        assert forall|q: int|
                            0 <= q < self.insns_in(b).len() && self.insns_in(b)[q]
                                == at implies q == p as int by {}
                    }
                }
                self.block_insns[b.0].insert(p + 1, i);
                self.insn_block[i.0] = Some(b);
                proof {
                    self.lemma_insert_ok(mid, b, i, p as int + 1, nb, ni);
                }
                return ;
            }
            p += 1;
        }
        proof {
            assert(mid.insn_block@[at.0 as int] == Some(b));
            assert(self.block_insns@[b.0 as int]@.contains(Insn(at.0 as usize)));
            let q = choose|q: int|
                0 <= q < self.block_insns@[b.0 as int]@.len()
                    && self.block_insns@[b.0 as int]@[q] == Insn(at.0 as usize);
            assert(self.block_insns@[b.0 as int]@[q] == at);
            assert(false);
        }
    }

    /// Consistency is monotone in the graph bounds.
    pub proof fn lemma_wf_grow(self, nb1: int, ni1: int, nb2: int, ni2: int)
        requires
            self.wf(nb1, ni1),
            nb2 >= nb1,
            ni2 >= ni1,
        ensures
            self.wf(nb2, ni2),
    {
    }

    /// The blocks of the function, in order.
    pub fn blocks_in_order(&self) -> (r: &Vec<Block>)
        ensures
            r@ == self.block_order@,
    {
        &self.block_order
    }

    /// The instructions of block `b`, in order.
    pub fn insns_of(&self, b: Block) -> (r: Vec<Insn>)
        ensures
            r@ == self.insns_in(b),
    {
        if b.0 < self.block_insns.len() {
            let n = self.block_insns[b.0].len();
            let mut out: Vec<Insn> = Vec::new();
            let mut k: usize = 0;
            while k < n
                invariant
                    (b.0 as int) < self.block_insns@.len(),
                    n == self.block_insns@[b.0 as int]@.len(),
                    k <= n,
                    out@ == self.block_insns@[b.0 as int]@.take(k as int),
                decreases n - k,
            {
                out.push(self.block_insns[b.0][k]);
                proof {
                    assert(out@ == self.block_insns@[b.0 as int]@.take(k as int + 1));
                }
                k += 1;
            }
            proof {
                assert(self.block_insns@[b.0 as int]@.take(n as int)
                    == self.block_insns@[b.0 as int]@);
            }
            out
        } else {
            Vec::new()
        }
    }

    /// The last instruction of block `b`, which is its terminator once the
    /// block is finished.
    pub fn last_insn(&self, b: Block) -> (r: Option<Insn>)
        ensures
            r == (if self.insns_in(b).len() > 0 {
                Some(self.insns_in(b).last())
            } else {
                None::<Insn>
            }),
    {
        if b.0 < self.block_insns.len() {
            let n = self.block_insns[b.0].len();
            if n > 0 {
                Some(self.block_insns[b.0][n - 1])
            } else {
                None
            }
        } else {
            None
        }
    }

    /// The block an instruction currently sits in.
    pub fn insn_block_of(&self, i: Insn) -> (r: Option<Block>)
        ensures
            r == self.block_of(i),
    {
        if i.0 < self.insn_block.len() {
            self.insn_block[i.0]
        } else {
            None
        }
    }
}

} // verus!
