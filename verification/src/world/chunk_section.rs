//! Run-length storage of a 16x16x16 block cube, with a set of dirty
//! cell indices accumulated between packet flushes.

use vstd::prelude::*;

verus! {

/// One 16x16x16 cube of block states, stored as an ordered list of
/// `(run_length, block)` pairs whose lengths always sum to 4096, plus
/// the linear indices overwritten since the last flush.
pub struct ChunkSection {
    runs: Vec<(u16, u32)>,
    dirty: Vec<u16>,
}

/// The block sequence a run list stands for: each `(len, block)` pair
/// contributes `len` copies of `block`.
pub open spec fn expand(runs: Seq<(u16, u32)>) -> Seq<u32>
    decreases runs.len(),
{
    if runs.len() == 0 {
        Seq::empty()
    } else {
        Seq::new(runs[0].0 as nat, |i: int| runs[0].1) + expand(runs.drop_first())
    }
}

/// Sum of the run lengths of a run list.
pub open spec fn total_len(runs: Seq<(u16, u32)>) -> int
    decreases runs.len(),
{
    if runs.len() == 0 {
        0
    } else {
        runs[0].0 + total_len(runs.drop_first())
    }
}

/// A run list in canonical form: no zero-length run and no two
/// adjacent runs with the same block.
pub open spec fn collapsed(runs: Seq<(u16, u32)>) -> bool {
    &&& forall|i: int| 0 <= i < runs.len() ==> (#[trigger] runs[i]).0 > 0
    &&& forall|i: int| 0 <= i < runs.len() - 1 ==> (#[trigger] runs[i]).1 != runs[i + 1].1
}

/// A strictly increasing list of in-range linear cell indices.
pub open spec fn dirty_wf(dirty: Seq<u16>) -> bool {
    &&& forall|i: int| 0 <= i < dirty.len() ==> #[trigger] dirty[i] < 4096
    &&& forall|i: int, j: int| 0 <= i < j < dirty.len() ==> #[trigger] dirty[i] < #[trigger] dirty[j]
}

/// The expansion of a run list is as long as its lengths say.
pub proof fn lemma_expand_len(runs: Seq<(u16, u32)>)
    ensures
        expand(runs).len() == total_len(runs),
    decreases runs.len(),
{
    if runs.len() > 0 {
        lemma_expand_len(runs.drop_first());
    }
}

/// Appending a run appends its cells to the expansion.
pub proof fn lemma_expand_push(runs: Seq<(u16, u32)>, run: (u16, u32))
    ensures
        expand(runs.push(run)) =~= expand(runs) + Seq::new(run.0 as nat, |i: int| run.1),
    decreases runs.len(),
{
    let p = runs.push(run);
    if runs.len() == 0 {
        assert(p.drop_first() =~= Seq::<(u16, u32)>::empty());
        assert(p[0] == run);
        assert(expand(p) =~= Seq::new(p[0].0 as nat, |i: int| p[0].1) + expand(p.drop_first()));
        assert(expand(p) =~= expand(runs) + Seq::new(run.0 as nat, |i: int| run.1));
    } else {
        assert(p.drop_first() =~= runs.drop_first().push(run));
        lemma_expand_push(runs.drop_first(), run);
        assert(p[0] == runs[0]);
        assert(expand(p) =~= Seq::new(p[0].0 as nat, |i: int| p[0].1) + expand(p.drop_first()));
        assert(expand(p) =~= expand(runs) + Seq::new(run.0 as nat, |i: int| run.1));
    }
}

/// Run lengths are never negative, so neither is their sum.
pub proof fn lemma_total_len_nonneg(runs: Seq<(u16, u32)>)
    ensures
        total_len(runs) >= 0,
    decreases runs.len(),
{
    if runs.len() > 0 {
        lemma_total_len_nonneg(runs.drop_first());
    }
}

/// The sum of run lengths splits at any run boundary.
pub proof fn lemma_total_len_split(runs: Seq<(u16, u32)>, i: int)
    requires
        0 <= i <= runs.len(),
    ensures
        total_len(runs) == total_len(runs.take(i)) + total_len(runs.skip(i)),
    decreases i,
{
    if i == 0 {
        assert(runs.take(0) =~= Seq::<(u16, u32)>::empty());
        assert(runs.skip(0) =~= runs);
    } else {
        assert(runs.take(i).drop_first() =~= runs.drop_first().take(i - 1));
        assert(runs.skip(i) =~= runs.drop_first().skip(i - 1));
        lemma_total_len_split(runs.drop_first(), i - 1);
        assert(total_len(runs.take(i)) == runs[0].0 + total_len(runs.take(i).drop_first()));
    }
}

/// Taking one more run adds exactly its length to the running sum.
pub proof fn lemma_total_len_take_succ(runs: Seq<(u16, u32)>, i: int)
    requires
        0 <= i < runs.len(),
    ensures
        total_len(runs.take(i + 1)) == total_len(runs.take(i)) + runs[i].0,
{
    assert(runs.take(i + 1) =~= runs.take(i).push(runs[i]));
    lemma_total_len_push(runs.take(i), runs[i]);
}

/// Appending a run adds its length to the sum.
pub proof fn lemma_total_len_push(runs: Seq<(u16, u32)>, run: (u16, u32))
    ensures
        total_len(runs.push(run)) == total_len(runs) + run.0,
    decreases runs.len(),
{
    let p = runs.push(run);
    if runs.len() == 0 {
        assert(p.drop_first() =~= Seq::<(u16, u32)>::empty());
        assert(p[0] == run);
        assert(total_len(p) == run.0 + total_len(p.drop_first()));
    } else {
        assert(p.drop_first() =~= runs.drop_first().push(run));
        lemma_total_len_push(runs.drop_first(), run);
        assert(p[0] == runs[0]);
        assert(total_len(p) == p[0].0 + total_len(p.drop_first()));
    }
}

/// Replacing a run's block, keeping its length, keeps the sum.
pub proof fn lemma_total_len_update_same(runs: Seq<(u16, u32)>, i: int, block: u32)
    requires
        0 <= i < runs.len(),
    ensures
        total_len(runs.update(i, (runs[i].0, block))) == total_len(runs),
    decreases runs.len(),
{
    let u = runs.update(i, (runs[i].0, block));
    if i == 0 {
        assert(u.drop_first() =~= runs.drop_first());
        assert(u[0].0 == runs[0].0);
    } else {
        assert(u.drop_first() =~= runs.drop_first().update(i - 1, (runs[i].0, block)));
        assert(runs.drop_first()[i - 1] == runs[i]);
        lemma_total_len_update_same(runs.drop_first(), i - 1, block);
        assert(u[0] == runs[0]);
    }
}

/// No single run is longer than the whole sum.
pub proof fn lemma_run_le_total(runs: Seq<(u16, u32)>, i: int)
    requires
        0 <= i < runs.len(),
    ensures
        runs[i].0 <= total_len(runs),
        total_len(runs.take(i)) >= 0,
        total_len(runs.take(i)) + runs[i].0 <= total_len(runs),
{
    lemma_total_len_split(runs, i);
    lemma_total_len_nonneg(runs.take(i));
    lemma_total_len_nonneg(runs.skip(i).drop_first());
    assert(total_len(runs.skip(i)) == runs[i].0 + total_len(runs.skip(i).drop_first()));
}

/// The expansion splits at any run boundary.
pub proof fn lemma_expand_split(runs: Seq<(u16, u32)>, i: int)
    requires
        0 <= i <= runs.len(),
    ensures
        expand(runs) =~= expand(runs.take(i)) + expand(runs.skip(i)),
    decreases i,
{
    if i == 0 {
        assert(runs.take(0) =~= Seq::<(u16, u32)>::empty());
        assert(runs.skip(0) =~= runs);
    } else {
        assert(runs.take(i).drop_first() =~= runs.drop_first().take(i - 1));
        assert(runs.skip(i) =~= runs.drop_first().skip(i - 1));
        lemma_expand_split(runs.drop_first(), i - 1);
        assert(expand(runs) =~= Seq::new(runs[0].0 as nat, |k: int| runs[0].1)
            + expand(runs.drop_first()));
        assert(expand(runs.take(i)) =~= Seq::new(runs[0].0 as nat, |k: int| runs[0].1)
            + expand(runs.drop_first().take(i - 1)));
    }
}

/// Every cell inside run `i` of the expansion holds that run's block.
pub proof fn lemma_expand_index(runs: Seq<(u16, u32)>, i: int, off: int)
    requires
        0 <= i < runs.len(),
        0 <= off < runs[i].0,
    ensures
        0 <= total_len(runs.take(i)),
        total_len(runs.take(i)) + off < total_len(runs),
        expand(runs)[total_len(runs.take(i)) + off] == runs[i].1,
{
    lemma_run_le_total(runs, i);
    lemma_expand_split(runs, i);
    lemma_expand_len(runs);
    lemma_expand_len(runs.take(i));
    let base = total_len(runs.take(i));
    let tail = runs.skip(i);
    assert(tail[0] == runs[i]);
    assert(expand(tail) =~= Seq::new(tail[0].0 as nat, |k: int| tail[0].1)
        + expand(tail.drop_first()));
    assert(expand(tail)[off] == runs[i].1);
    assert(expand(runs)[base + off] == expand(tail)[off]);
}

/// When every run has length one, the run list and its expansion match
/// index for index.
pub proof fn lemma_expand_units(runs: Seq<(u16, u32)>)
    requires
        forall|j: int| 0 <= j < runs.len() ==> (#[trigger] runs[j]).0 == 1,
    ensures
        expand(runs).len() == runs.len(),
        forall|j: int| 0 <= j < runs.len() ==> expand(runs)[j] == (#[trigger] runs[j]).1,
    decreases runs.len(),
{
    if runs.len() > 0 {
        assert(forall|j: int| 0 <= j < runs.drop_first().len()
            ==> (#[trigger] runs.drop_first()[j]).0 == 1);
        lemma_expand_units(runs.drop_first());
        assert(expand(runs).len() == runs.len()) by {
            assert(expand(runs) =~= Seq::new(runs[0].0 as nat, |i: int| runs[0].1)
                + expand(runs.drop_first()));
        }
        assert forall|j: int| 0 <= j < runs.len() implies expand(runs)[j]
            == (#[trigger] runs[j]).1 by {
            if j > 0 {
                assert(runs.drop_first()[j - 1] == runs[j]);
                assert(expand(runs)[j] == expand(runs.drop_first())[j - 1]);
            }
        }
    }
}

impl ChunkSection {
    /// The block at each of the 4096 cells, by linear index.
    pub closed spec fn blocks(&self) -> Seq<u32> {
        expand(self.runs@)
    }

    /// The run list itself, as `(length, block)` pairs.
    pub closed spec fn runs_view(&self) -> Seq<(u16, u32)> {
        self.runs@
    }

    /// Linear indices overwritten since the last flush, ascending.
    pub closed spec fn dirty_view(&self) -> Seq<u16> {
        self.dirty@
    }

    /// Structural invariant: the run lengths sum to 4096 and the dirty
    /// list is a strictly ascending list of in-range indices.
    pub closed spec fn wf(&self) -> bool {
        &&& total_len(self.runs@) == 4096
        &&& dirty_wf(self.dirty@)
    }

    /// The blocks are exactly the expansion of the run list.
    pub proof fn lemma_blocks_from_runs(&self)
        ensures
            self.blocks() == expand(self.runs_view()),
    {
    }

    /// A well-formed section's dirty list is strictly ascending, so
    /// pinning its members pins the list itself (see
    /// [`lemma_sorted_dirty_unique`]).
    pub proof fn lemma_wf_dirty(&self)
        requires
            self.wf(),
        ensures
            dirty_wf(self.dirty_view()),
    {
    }

    /// The run lengths of a well-formed section sum to 4096, so its
    /// expansion covers exactly the 4096 cells.
    pub proof fn lemma_wf_len(&self)
        requires
            self.wf(),
        ensures
            total_len(self.runs_view()) == 4096,
            self.blocks().len() == 4096,
    {
        lemma_expand_len(self.runs@);
    }

    /// A section of pure air: a single run covering all 4096 cells,
    /// nothing dirty.
    pub fn empty() -> (r: Self)
        ensures
            r.wf(),
            r.blocks() =~= Seq::new(4096, |i: int| super::BLOCK_AIR),
            r.runs_view() =~= seq![(4096u16, super::BLOCK_AIR)],
            r.dirty_view() =~= Seq::<u16>::empty(),
            collapsed(r.runs_view()),
    {
        let mut runs: Vec<(u16, u32)> = Vec::new();
        runs.push((4096u16, super::BLOCK_AIR));
        let r = ChunkSection { runs, dirty: Vec::new() };
        proof {
            assert(r.runs@ =~= seq![(4096u16, super::BLOCK_AIR)]);
            assert(r.runs@.drop_first() =~= Seq::<(u16, u32)>::empty());
            assert(expand(r.runs@) =~= Seq::new(4096, |i: int| r.runs@[0].1)
                + expand(r.runs@.drop_first()));
            assert(expand(r.runs@) =~= Seq::new(4096, |i: int| super::BLOCK_AIR));
            assert(total_len(r.runs@) == 4096 + total_len(r.runs@.drop_first()));
        }
        r
    }

    /// What a point lookup returns: the block at the linear index, or
    /// nothing for an index beyond the cube.
    pub open spec fn spec_checked_get(&self, linear_xyz: u16) -> Option<u32> {
        if linear_xyz < 4096 {
            Some(self.blocks()[linear_xyz as int])
        } else {
            None
        }
    }

    /// The block at a linear index, or `None` past the 4096 cells.
    pub fn checked_get(&self, linear_xyz: u16) -> (r: Option<u32>)
        requires
            self.wf(),
        ensures
            r == self.spec_checked_get(linear_xyz),
    {
        if linear_xyz >= 4096 {
            return None;
        }
        proof {
            self.lemma_wf_len();
        }
        let mut i: usize = 0;
        let mut acc: u16 = 0;
        while i < self.runs.len()
            invariant
                self.wf(),
                i <= self.runs@.len(),
                linear_xyz < 4096,
                acc == total_len(self.runs@.take(i as int)),
                acc <= linear_xyz,
            decreases self.runs@.len() - i,
        {
            let (len, block) = self.runs[i];
            proof {
                lemma_run_le_total(self.runs@, i as int);
                lemma_total_len_take_succ(self.runs@, i as int);
            }
            if linear_xyz < acc + len {
                proof {
                    lemma_expand_index(self.runs@, i as int, linear_xyz - acc);
                }
                return Some(block);
            }
            acc = acc + len;
            i = i + 1;
        }
        proof {
            assert(self.runs@.take(self.runs@.len() as int) =~= self.runs@);
            assert(false);
        }
        None
    }

    /// The block at a linear index known to be in range.
    pub fn get(&self, linear_xyz: u16) -> (r: u32)
        requires
            self.wf(),
            linear_xyz < 4096,
        ensures
            r == self.blocks()[linear_xyz as int],
    {
        let r = self.checked_get(linear_xyz);
        match r {
            Some(block) => block,
            None => {
                proof {
                    assert(false);
                }
                super::BLOCK_AIR
            },
        }
    }

    /// The block at the given in-section offsets, or `None` if any
    /// offset leaves the cube.
    pub fn checked_get_xyz(&self, dx: u8, dy: u8, dz: u8) -> (r: Option<u32>)
        requires
            self.wf(),
            dx < 16,
            dy < 16,
            dz < 16,
        ensures
            r == self.spec_checked_get(super::spec_linearise(dx, dy, dz)),
    {
        self.checked_get(super::in_section_block_linearise(dx, dy, dz))
    }

    /// The block at the given in-section offsets.
    pub fn get_xyz(&self, dx: u8, dy: u8, dz: u8) -> (r: u32)
        requires
            self.wf(),
            dx < 16,
            dy < 16,
            dz < 16,
        ensures
            r == self.blocks()[super::spec_linearise(dx, dy, dz) as int],
    {
        proof {
            super::lemma_linearise_round_trip(dx, dy, dz);
        }
        self.get(super::in_section_block_linearise(dx, dy, dz))
    }

    /// Replace every run by unit runs, one per cell, so that run index
    /// and linear cell index coincide. The stored blocks do not change.
    pub fn split_out_all(&mut self)
        requires
            old(self).wf(),
        ensures
            final(self).wf(),
            final(self).blocks() =~= old(self).blocks(),
            final(self).runs_view().len() == 4096,
            forall|j: int| 0 <= j < 4096
                ==> (#[trigger] final(self).runs_view()[j]) == (1u16, old(self).blocks()[j]),
            final(self).dirty_view() == old(self).dirty_view(),
    {
        proof {
            self.lemma_wf_len();
        }
        let ghost orig = self.runs@;
        let mut out: Vec<(u16, u32)> = Vec::new();
        let mut i: usize = 0;
        while i < self.runs.len()
            invariant
                self.runs@ == orig,
                total_len(orig) == 4096,
                i <= orig.len(),
                expand(out@) =~= expand(orig.take(i as int)),
                forall|j: int| 0 <= j < out@.len() ==> (#[trigger] out@[j]).0 == 1,
                out@.len() == total_len(orig.take(i as int)),
            decreases orig.len() - i,
        {
            let (len, block) = self.runs[i];
            proof {
                lemma_run_le_total(orig, i as int);
            }
            let mut k: u16 = 0;
            while k < len
                invariant
                    k <= len,
                    forall|j: int| 0 <= j < out@.len() ==> (#[trigger] out@[j]).0 == 1,
                    expand(out@) =~= expand(orig.take(i as int))
                        + Seq::new(k as nat, |q: int| block),
                    out@.len() == total_len(orig.take(i as int)) + k,
                    total_len(orig.take(i as int)) + len <= 4096,
                    i < orig.len(),
                    orig[i as int] == (len, block),
                decreases len - k,
            {
                proof {
                    lemma_expand_push(out@, (1u16, block));
                }
                out.push((1u16, block));
                k = k + 1;
            }
            proof {
                lemma_total_len_take_succ(orig, i as int);
                assert(orig.take(i + 1) =~= orig.take(i as int).push(orig[i as int]));
                lemma_expand_push(orig.take(i as int), orig[i as int]);
                assert(expand(out@) =~= expand(orig.take(i + 1)));
                if i + 1 < orig.len() {
                    lemma_run_le_total(orig, i + 1);
                }
            }
            i = i + 1;
        }
        proof {
            assert(orig.take(orig.len() as int) =~= orig);
            lemma_expand_len(out@);
        }
        self.runs = out;
        proof {
            lemma_expand_units(self.runs@);
        }
    }

    /// Overwrite the block of one run and record the run index as
    /// dirty. With the section split into unit runs this writes one
    /// cell.
    pub fn overwrite_run_state(&mut self, run_index: u16, block: u32)
        requires
            old(self).wf(),
            run_index < 4096,
            run_index < old(self).runs_view().len(),
        ensures
            final(self).wf(),
            final(self).runs_view() =~= old(self).runs_view().update(
                run_index as int,
                (old(self).runs_view()[run_index as int].0, block),
            ),
            forall|v: u16| final(self).dirty_view().contains(v)
                <==> old(self).dirty_view().contains(v) || v == run_index,
            (forall|j: int| 0 <= j < old(self).runs_view().len()
                ==> (#[trigger] old(self).runs_view()[j]).0 == 1)
                ==> final(self).blocks() =~= old(self).blocks().update(run_index as int, block),
    {
        let len = self.runs[run_index as usize].0;
        self.runs[run_index as usize] = (len, block);
        proof {
            assert(self.runs@ == old(self).runs@.update(
                run_index as int,
                (old(self).runs@[run_index as int].0, block),
            ));
            lemma_total_len_update_same(old(self).runs@, run_index as int, block);
            if forall|j: int| 0 <= j < old(self).runs_view().len()
                ==> (#[trigger] old(self).runs_view()[j]).0 == 1 {
                lemma_expand_units(old(self).runs@);
                assert(forall|j: int| 0 <= j < self.runs@.len()
                    ==> (#[trigger] self.runs@[j]).0 == 1);
                lemma_expand_units(self.runs@);
                assert(expand(self.runs@).len() == expand(old(self).runs@).len());
                assert forall|j: int| 0 <= j < expand(self.runs@).len()
                    implies expand(self.runs@)[j]
                        == expand(old(self).runs@).update(run_index as int, block)[j] by {
                    assert(expand(self.runs@)[j] == self.runs@[j].1);
                    assert(expand(old(self).runs@)[j] == old(self).runs@[j].1);
                    if j != run_index {
                        assert(self.runs@[j] == old(self).runs@[j]);
                    }
                }
                assert(expand(self.runs@)
                    =~= expand(old(self).runs@).update(run_index as int, block));
            }
        }
        self.mark_dirty(run_index);
    }

    /// Insert a linear index into the ascending dirty list, keeping it
    /// sorted and duplicate-free.
    fn mark_dirty(&mut self, linear_xyz: u16)
        requires
            old(self).wf(),
            linear_xyz < 4096,
        ensures
            final(self).wf(),
            final(self).runs_view() == old(self).runs_view(),
            final(self).blocks() == old(self).blocks(),
            forall|v: u16| final(self).dirty_view().contains(v)
                <==> old(self).dirty_view().contains(v) || v == linear_xyz,
    {
        let mut p: usize = 0;
        while p < self.dirty.len() && self.dirty[p] < linear_xyz
            invariant
                old(self).wf(),
                self == old(self),
                p <= self.dirty@.len(),
                forall|j: int| 0 <= j < p ==> #[trigger] self.dirty@[j] < linear_xyz,
            decreases self.dirty@.len() - p,
        {
            p = p + 1;
        }
        if p < self.dirty.len() && self.dirty[p] == linear_xyz {
            return;
        }
        proof {
            // Everything before the insertion point is below the new
            // index, everything at or after it is strictly above.
            assert(p == old(self).dirty@.len() || old(self).dirty@[p as int] > linear_xyz);
        }
        self.dirty.insert(p, linear_xyz);
        proof {
            let d0 = old(self).dirty@;
            let d1 = self.dirty@;
            let pi = p as int;
            d0.insert_ensures(pi, linear_xyz);
            assert forall|v: u16| d1.contains(v) implies d0.contains(v) || v == linear_xyz by {
                let w = choose|w: int| 0 <= w < d1.len() && d1[w] == v;
                if w < pi {
                    assert(d0[w] == v);
                } else if w > pi {
                    assert(d1[w - 1 + 1] == d0[w - 1]);
                }
            }
            assert forall|v: u16| d0.contains(v) implies d1.contains(v) by {
                let w = choose|w: int| 0 <= w < d0.len() && d0[w] == v;
                if w < pi {
                    assert(d1[w] == v);
                } else {
                    assert(d1[w + 1] == v);
                }
            }
            assert(d1.contains(linear_xyz)) by {
                assert(d1[pi] == linear_xyz);
            }
            assert forall|i: int, j: int| 0 <= i < j < d1.len()
                implies #[trigger] d1[i] < #[trigger] d1[j] by {
                if j < pi {
                    assert(d1[i] == d0[i] && d1[j] == d0[j]);
                } else if j == pi {
                    assert(d1[i] == d0[i] && d0[i] < linear_xyz);
                } else if i == pi {
                    assert(d1[j - 1 + 1] == d0[j - 1]);
                    assert(d0[pi] <= d0[j - 1]);
                } else if i < pi {
                    assert(d1[i] == d0[i] && d0[i] < linear_xyz);
                    assert(d1[j - 1 + 1] == d0[j - 1]);
                    assert(d0[pi] <= d0[j - 1]);
                } else {
                    assert(d1[i - 1 + 1] == d0[i - 1]);
                    assert(d1[j - 1 + 1] == d0[j - 1]);
                }
            }
        }
    }

    /// Make the run list as small as possible: merge adjacent runs
    /// with the same block and drop zero-length runs. The stored
    /// blocks do not change, and afterwards no two adjacent runs share
    /// a block and no run has length zero.
    pub fn collapse(&mut self)
        requires
            old(self).wf(),
        ensures
            final(self).wf(),
            final(self).blocks() =~= old(self).blocks(),
            collapsed(final(self).runs_view()),
            final(self).dirty_view() == old(self).dirty_view(),
    {
        let ghost orig = self.runs@;
        let mut out: Vec<(u16, u32)> = Vec::new();
        let mut i: usize = 0;
        while i < self.runs.len()
            invariant
                self.runs@ == orig,
                total_len(orig) == 4096,
                i <= orig.len(),
                expand(out@) =~= expand(orig.take(i as int)),
                total_len(out@) == total_len(orig.take(i as int)),
                collapsed(out@),
            decreases orig.len() - i,
        {
            let (len, block) = self.runs[i];
            proof {
                lemma_run_le_total(orig, i as int);
                lemma_total_len_take_succ(orig, i as int);
                assert(orig.take(i + 1) =~= orig.take(i as int).push(orig[i as int]));
                lemma_expand_push(orig.take(i as int), orig[i as int]);
            }
            if len == 0 {
                proof {
                    assert(expand(orig.take(i + 1)) =~= expand(orig.take(i as int)));
                }
            } else if out.len() > 0 && out[out.len() - 1].1 == block {
                let last = out.len() - 1;
                let ghost a = out@;
                let merged = out[last].0;
                proof {
                    lemma_run_le_total(a, last as int);
                    lemma_total_len_nonneg(orig.skip(i + 1));
                    lemma_total_len_split(orig, i + 1);
                }
                let _ = out.pop();
                proof {
                    assert(a =~= out@.push((merged, block)));
                    lemma_expand_push(out@, (merged, block));
                    lemma_total_len_push(out@, (merged, block));
                }
                out.push((merged + len, block));
                proof {
                    let prev = a.drop_last();
                    assert(out@ =~= prev.push(((merged + len) as u16, block)));
                    lemma_expand_push(prev, ((merged + len) as u16, block));
                    lemma_total_len_push(prev, ((merged + len) as u16, block));
                    assert(expand(out@) =~= expand(orig.take(i + 1)));
                    assert forall|k: int| 0 <= k < out@.len()
                        implies (#[trigger] out@[k]).0 > 0 by {
                        if k < out@.len() - 1 {
                            assert(out@[k] == a[k]);
                        }
                    }
                    assert forall|k: int| 0 <= k < out@.len() - 1
                        implies (#[trigger] out@[k]).1 != out@[k + 1].1 by {
                        assert(out@[k] == a[k]);
                        if k == out@.len() - 2 {
                            assert(a[k].1 != a[k + 1].1);
                        } else {
                            assert(out@[k + 1] == a[k + 1]);
                        }
                    }
                }
            } else {
                proof {
                    lemma_expand_push(out@, (len, block));
                    lemma_total_len_push(out@, (len, block));
                }
                out.push((len, block));
            }
            i = i + 1;
        }
        proof {
            assert(orig.take(orig.len() as int) =~= orig);
            lemma_expand_len(out@);
        }
        self.runs = out;
    }

    /// An iterator over the 4096 blocks of this section, in linear
    /// order.
    pub fn iter(&self) -> (r: SectionIter<'_>)
        requires
            self.wf(),
        ensures
            r.wf(),
            r.yields() =~= self.blocks(),
    {
        let r = SectionIter { runs: &self.runs, run_idx: 0, offset: 0 };
        proof {
            assert(r.runs@.skip(0) =~= r.runs@);
            assert(r.runs@.take(0) =~= Seq::<(u16, u32)>::empty());
            assert(expand(r.runs@).skip(0) =~= expand(r.runs@));
        }
        r
    }

    /// Forget the accumulated dirty indices.
    pub fn clear_dirty(&mut self)
        requires
            old(self).wf(),
        ensures
            final(self).wf(),
            final(self).blocks() == old(self).blocks(),
            final(self).runs_view() == old(self).runs_view(),
            final(self).dirty_view() =~= Seq::<u16>::empty(),
    {
        self.dirty.clear();
    }

    /// The differential update owed for this section, if any cell is
    /// dirty: a single-cell update carries the absolute block
    /// position, a multi-cell one carries packed per-cell entries in
    /// ascending linear order.
    pub fn update_packet(&self, cx: i32, cy: i32, cz: i32) -> (r: Option<SectionUpdate>)
        requires
            self.wf(),
        ensures
            update_matches(r, self.blocks(), self.dirty_view(), cx as int, cy as int, cz as int),
    {
        proof {
            self.lemma_wf_len();
        }
        if self.dirty.len() == 0 {
            None
        } else if self.dirty.len() == 1 {
            let linear_xyz = self.dirty[0];
            let (dx, dy, dz) = super::in_section_block_delinearise(linear_xyz);
            Some(SectionUpdate::Single {
                x: (cx as i64) * 16 + (dx as i64),
                y: (cy as i64) * 16 + (dy as i64),
                z: (cz as i64) * 16 + (dz as i64),
                block: self.get(linear_xyz),
            })
        } else {
            let mut entries: Vec<u64> = Vec::new();
            let mut k: usize = 0;
            while k < self.dirty.len()
                invariant
                    self.wf(),
                    self.blocks().len() == 4096,
                    k <= self.dirty@.len(),
                    entries@.len() == k,
                    forall|q: int| 0 <= q < k ==> #[trigger] entries@[q]
                        == spec_pack_update(
                            self.blocks()[self.dirty@[q] as int],
                            self.dirty@[q],
                        ),
                decreases self.dirty@.len() - k,
            {
                let linear_xyz = self.dirty[k];
                let (dx, dy, dz) = super::in_section_block_delinearise(linear_xyz);
                let block = self.get(linear_xyz);
                let packed = ((block as u64) << 12) | ((dx as u64) << 8) | ((dz as u64) << 4)
                    | (dy as u64);
                proof {
                    assert(((block as u64) << 12) | ((dx as u64) << 8) | ((dz as u64) << 4)
                        | (dy as u64) == (block as u64) * 4096 + (dx as u64) * 256
                            + (dz as u64) * 16 + (dy as u64))
                        by (bit_vector)
                        requires
                            dx < 16 && dy < 16 && dz < 16,
                    ;
                }
                entries.push(packed);
                k = k + 1;
            }
            Some(SectionUpdate::Multi { cx, cy, cz, entries })
        }
    }

    /// How this section is serialised for a full chunk send: a single
    /// run becomes a single-valued palette, anything else the direct
    /// form listing all 4096 cells. Either carries the number of
    /// non-air cells.
    pub fn encoding(&self) -> (r: SectionEncoding)
        requires
            self.wf(),
        ensures
            encoding_matches(r, self.runs_view(), self.blocks()),
    {
        proof {
            self.lemma_wf_len();
        }
        if self.runs.len() == 1 {
            let block = self.runs[0].1;
            SectionEncoding::SingleValued {
                block,
                block_count: if block != super::BLOCK_AIR {
                    4096
                } else {
                    0
                },
            }
        } else {
            let mut cells: Vec<u32> = Vec::new();
            let mut block_count: u16 = 0;
            let mut linear_xyz: u16 = 0;
            while linear_xyz < 4096
                invariant
                    self.wf(),
                    self.blocks().len() == 4096,
                    linear_xyz <= 4096,
                    cells@ =~= self.blocks().take(linear_xyz as int),
                    block_count == count_non_air(self.blocks().take(linear_xyz as int)),
                    block_count <= linear_xyz,
                decreases 4096 - linear_xyz,
            {
                let block = self.get(linear_xyz);
                cells.push(block);
                proof {
                    let t1 = self.blocks().take(linear_xyz + 1);
                    assert(t1.drop_last() =~= self.blocks().take(linear_xyz as int));
                    assert(t1.last() == self.blocks()[linear_xyz as int]);
                }
                if block != super::BLOCK_AIR {
                    block_count = block_count + 1;
                }
                linear_xyz = linear_xyz + 1;
            }
            proof {
                assert(self.blocks().take(4096) =~= self.blocks());
            }
            SectionEncoding::Direct { cells, block_count }
        }
    }
}

/// A differential block update for one section, ready to become a
/// wire packet.
pub enum SectionUpdate {
    /// Exactly one cell changed: its absolute block position and the
    /// new block.
    Single { x: i64, y: i64, z: i64, block: u32 },
    /// Several cells changed: the chunk-section position and one
    /// packed `(block << 12) | (dx << 8) | (dz << 4) | dy` entry per
    /// dirty cell, in ascending linear order.
    Multi { cx: i32, cy: i32, cz: i32, entries: Vec<u64> },
}

/// How a section is serialised into a paletted container.
pub enum SectionEncoding {
    /// Every cell holds the same block.
    SingleValued { block: u32, block_count: u16 },
    /// All 4096 cells listed in linear order.
    Direct { cells: Vec<u32>, block_count: u16 },
}

/// The x offset packed into a linear index.
pub open spec fn spec_delinearise_x(linear_xyz: u16) -> u8 {
    super::spec_delinearise(linear_xyz).0
}

/// The y offset packed into a linear index.
pub open spec fn spec_delinearise_y(linear_xyz: u16) -> u8 {
    super::spec_delinearise(linear_xyz).1
}

/// The z offset packed into a linear index.
pub open spec fn spec_delinearise_z(linear_xyz: u16) -> u8 {
    super::spec_delinearise(linear_xyz).2
}

/// What a differential update owes a section with the given blocks
/// and dirty list: nothing when nothing is dirty, the absolute
/// position and new block of the one dirty cell, or the packed
/// entries of every dirty cell in ascending linear order.
pub open spec fn update_matches(
    r: Option<SectionUpdate>,
    blocks: Seq<u32>,
    dirty: Seq<u16>,
    cx: int,
    cy: int,
    cz: int,
) -> bool {
    &&& (r is None <==> dirty.len() == 0)
    &&& dirty.len() == 1 ==> (r matches Some(u) && u matches SectionUpdate::Single { x, y, z, block }
        && x == cx * 16 + spec_delinearise_x(dirty[0]) && y == cy * 16 + spec_delinearise_y(
        dirty[0],
    ) && z == cz * 16 + spec_delinearise_z(dirty[0]) && block == blocks[dirty[0] as int])
    &&& dirty.len() > 1 ==> (r matches Some(u) && u matches SectionUpdate::Multi {
        cx: rx,
        cy: ry,
        cz: rz,
        entries,
    } && rx == cx && ry == cy && rz == cz && entries@.len() == dirty.len() && forall|k: int|
        0 <= k < entries@.len() ==> #[trigger] entries@[k] == spec_pack_update(
            blocks[dirty[k] as int],
            dirty[k],
        ))
}

/// How a run list with the given expansion serialises: a single run
/// becomes the single-valued palette, anything else the direct form
/// listing all cells; either carries the non-air cell count.
pub open spec fn encoding_matches(r: SectionEncoding, runs: Seq<(u16, u32)>, blocks: Seq<u32>) -> bool {
    match r {
        SectionEncoding::SingleValued { block, block_count } => {
            &&& runs.len() == 1
            &&& block == runs[0].1
            &&& block_count == if block != super::BLOCK_AIR {
                4096int
            } else {
                0int
            }
        },
        SectionEncoding::Direct { cells, block_count } => {
            &&& runs.len() != 1
            &&& cells@ =~= blocks
            &&& block_count == count_non_air(blocks)
        },
    }
}

/// A multi-cell update entry: the block id in the high bits, then the
/// x, z and y offsets of the cell, four bits each.
pub open spec fn spec_pack_update(block: u32, linear_xyz: u16) -> u64 {
    (block * 4096 + spec_delinearise_x(linear_xyz) * 256 + spec_delinearise_z(linear_xyz) * 16
        + spec_delinearise_y(linear_xyz)) as u64
}

/// Walks the blocks of a section in linear order by expanding its
/// runs one cell at a time.
pub struct SectionIter<'l> {
    runs: &'l Vec<(u16, u32)>,
    run_idx: usize,
    offset: u16,
}

impl<'l> SectionIter<'l> {
    /// The run list the iterator walks.
    pub closed spec fn runs_view(&self) -> Seq<(u16, u32)> {
        self.runs@
    }

    /// How many blocks have been yielded so far.
    pub closed spec fn pos(&self) -> int {
        total_len(self.runs@.take(self.run_idx as int)) + self.offset
    }

    /// The blocks still to come, in order.
    pub open spec fn yields(&self) -> Seq<u32> {
        expand(self.runs_view()).skip(self.pos())
    }

    /// Structural invariant: the cursor sits inside the run list, at
    /// an offset no further than the current run's length.
    pub closed spec fn wf(&self) -> bool {
        &&& self.run_idx <= self.runs@.len()
        &&& self.run_idx < self.runs@.len() ==> self.offset <= self.runs@[self.run_idx as int].0
        &&& self.run_idx == self.runs@.len() ==> self.offset == 0
    }

    /// The next block, if any cell is left: blocks come in ascending
    /// linear order, each exactly once.
    pub fn next(&mut self) -> (r: Option<u32>)
        requires
            old(self).wf(),
        ensures
            final(self).wf(),
            final(self).runs_view() == old(self).runs_view(),
            old(self).yields().len() > 0 ==> r == Some(old(self).yields()[0])
                && final(self).yields() =~= old(self).yields().drop_first(),
            old(self).yields().len() == 0 ==> r == None::<u32> && final(self).yields()
                == old(self).yields(),
    {
        proof {
            lemma_expand_len(self.runs@);
            lemma_total_len_nonneg(self.runs@.take(self.run_idx as int));
        }
        while self.run_idx < self.runs.len() && self.offset == self.runs[self.run_idx].0
            invariant
                self.runs@ == old(self).runs_view(),
                self.wf(),
                self.pos() == old(self).pos(),
            decreases self.runs@.len() - self.run_idx,
        {
            proof {
                lemma_total_len_take_succ(self.runs@, self.run_idx as int);
            }
            self.run_idx = self.run_idx + 1;
            self.offset = 0;
        }
        proof {
            lemma_expand_len(self.runs@);
        }
        if self.run_idx < self.runs.len() {
            let block = self.runs[self.run_idx].1;
            proof {
                lemma_expand_index(self.runs@, self.run_idx as int, self.offset as int);
                lemma_total_len_nonneg(self.runs@.take(self.run_idx as int));
                assert(expand(self.runs@)[self.pos()] == block);
                assert(old(self).yields()[0] == expand(self.runs@)[self.pos()]);
            }
            self.offset = self.offset + 1;
            proof {
                assert(self.yields() =~= old(self).yields().drop_first());
            }
            Some(block)
        } else {
            proof {
                assert(self.runs@.take(self.runs@.len() as int) =~= self.runs@);
                assert(self.pos() == expand(self.runs@).len());
            }
            None
        }
    }
}

/// A point lookup agrees with iteration: the block a fresh iterator
/// yields in position `linear_xyz` is exactly what
/// `checked_get(linear_xyz)` returns, for every index inside the
/// cube.
pub proof fn lemma_checked_get_agrees_with_iter(
    section: &ChunkSection,
    it: SectionIter<'_>,
    linear_xyz: u16,
)
    requires
        section.wf(),
        it.yields() == section.blocks(),
        linear_xyz < 4096,
    ensures
        section.spec_checked_get(linear_xyz) == Some(it.yields()[linear_xyz as int]),
{
    section.lemma_wf_len();
}

/// The canonical run-length form is unique: two collapsed run lists
/// standing for the same blocks are the same list. Together with
/// [`ChunkSection::collapse`]'s contract this pins the collapsed
/// storage down to the block sequence it holds.
pub proof fn lemma_collapsed_unique(r1: Seq<(u16, u32)>, r2: Seq<(u16, u32)>)
    requires
        collapsed(r1),
        collapsed(r2),
        expand(r1) =~= expand(r2),
    ensures
        r1 =~= r2,
    decreases r1.len(),
{
    lemma_expand_len(r1);
    lemma_expand_len(r2);
    lemma_total_len_nonneg(r1);
    lemma_total_len_nonneg(r2);
    if r1.len() == 0 {
        if r2.len() > 0 {
            lemma_total_len_nonneg(r2.drop_first());
            assert(total_len(r2) == r2[0].0 + total_len(r2.drop_first()));
            assert(false);
        }
    } else if r2.len() == 0 {
        lemma_total_len_nonneg(r1.drop_first());
        assert(total_len(r1) == r1[0].0 + total_len(r1.drop_first()));
        assert(false);
    } else {
        let (l1, b1) = r1[0];
        let (l2, b2) = r2[0];
        assert(expand(r1)[0] == b1 && expand(r2)[0] == b2) by {
            lemma_expand_index(r1, 0, 0);
            lemma_expand_index(r2, 0, 0);
            assert(r1.take(0) =~= Seq::<(u16, u32)>::empty());
            assert(r2.take(0) =~= Seq::<(u16, u32)>::empty());
        }
        assert(l1 == l2) by {
            lemma_head_run_len(r1, r2);
            lemma_head_run_len(r2, r1);
        }
        assert(forall|j: int| 0 <= j < r1.drop_first().len()
            ==> (#[trigger] r1.drop_first()[j]) == r1[j + 1]);
        assert(forall|j: int| 0 <= j < r2.drop_first().len()
            ==> (#[trigger] r2.drop_first()[j]) == r2[j + 1]);
        assert(expand(r1.drop_first()) =~= expand(r2.drop_first())) by {
            assert(expand(r1) =~= Seq::new(l1 as nat, |i: int| b1) + expand(r1.drop_first()));
            assert(expand(r2) =~= Seq::new(l2 as nat, |i: int| b2) + expand(r2.drop_first()));
            lemma_expand_len(r1.drop_first());
            lemma_expand_len(r2.drop_first());
            assert(forall|j: int| 0 <= j < expand(r1.drop_first()).len()
                ==> #[trigger] expand(r1.drop_first())[j] == expand(r1)[l1 + j]
                    && expand(r2.drop_first())[j] == expand(r2)[l1 + j]);
        }
        lemma_collapsed_unique(r1.drop_first(), r2.drop_first());
        assert(r1[0] == r2[0]);
        assert(r1.len() == r2.len());
        assert forall|j: int| 0 <= j < r1.len() implies r1[j] == r2[j] by {
            if j > 0 {
                assert(r1.drop_first()[j - 1] == r2.drop_first()[j - 1]);
            }
        }
    }
}

/// With equal expansions, the head run of a collapsed list is no
/// shorter than the other's: were it shorter, the cell right after it
/// would have to hold both its block and a different one.
proof fn lemma_head_run_len(r1: Seq<(u16, u32)>, r2: Seq<(u16, u32)>)
    requires
        collapsed(r1),
        collapsed(r2),
        expand(r1) =~= expand(r2),
        r1.len() > 0,
        r2.len() > 0,
        expand(r1)[0] == r1[0].1,
        expand(r2)[0] == r2[0].1,
    ensures
        r1[0].0 >= r2[0].0,
{
    let l1 = r1[0].0 as int;
    let l2 = r2[0].0 as int;
    lemma_expand_len(r1);
    lemma_expand_len(r2);
    if l1 < l2 {
        // Cell l1 starts r1's second run, so it differs from the head
        // block; inside r2's head run it equals it.
        assert(0 < l1);
        lemma_run_le_total(r2, 0);
        assert(l1 < expand(r1).len()) by {
            assert(r2.take(0) =~= Seq::<(u16, u32)>::empty());
            lemma_expand_index(r2, 0, l1);
        }
        assert(r1.len() > 1) by {
            if r1.len() == 1 {
                assert(total_len(r1) == r1[0].0 + total_len(r1.drop_first()));
                assert(r1.drop_first().len() == 0);
            }
        }
        assert(expand(r1)[l1] == r1[1].1) by {
            lemma_expand_index(r1, 1, 0);
            assert(r1.take(1) =~= seq![r1[0]]);
            assert(total_len(r1.take(1)) == r1[0].0 + total_len(r1.take(1).drop_first()));
            assert(r1.take(1).drop_first() =~= Seq::<(u16, u32)>::empty());
        }
        assert(expand(r2)[l1] == r2[0].1) by {
            assert(r2.take(0) =~= Seq::<(u16, u32)>::empty());
            lemma_expand_index(r2, 0, l1);
        }
        assert(expand(r1)[0] == expand(r2)[0]);
        assert(r1[0].1 != r1[1].1);
        assert(false);
    }
}

/// A strictly ascending dirty list is determined by its members: two
/// well-formed dirty lists holding the same indices are the same list.
pub proof fn lemma_sorted_dirty_unique(d1: Seq<u16>, d2: Seq<u16>)
    requires
        dirty_wf(d1),
        dirty_wf(d2),
        forall|v: u16| d1.contains(v) <==> d2.contains(v),
    ensures
        d1 =~= d2,
    decreases d1.len(),
{
    if d1.len() == 0 {
        if d2.len() > 0 {
            assert(d2.contains(d2[0]));
            assert(d1.contains(d2[0]));
        }
    } else if d2.len() == 0 {
        assert(d1.contains(d1[0]));
        assert(d2.contains(d1[0]));
    } else {
        assert(d1.contains(d1[0]));
        assert(d2.contains(d2[0]));
        assert(d1[0] == d2[0]) by {
            let j = choose|j: int| 0 <= j < d2.len() && #[trigger] d2[j] == d1[0];
            let k = choose|k: int| 0 <= k < d1.len() && #[trigger] d1[k] == d2[0];
            assert(j > 0 ==> d2[0] < d2[j]);
            assert(k > 0 ==> d1[0] < d1[k]);
        }
        let e1 = d1.drop_first();
        let e2 = d2.drop_first();
        assert(forall|i: int| 0 <= i < e1.len() ==> #[trigger] e1[i] == d1[i + 1]);
        assert(forall|i: int| 0 <= i < e2.len() ==> #[trigger] e2[i] == d2[i + 1]);
        assert forall|v: u16| e1.contains(v) <==> e2.contains(v) by {
            if e1.contains(v) {
                let i = choose|i: int| 0 <= i < e1.len() && #[trigger] e1[i] == v;
                assert(d1[i + 1] == v && d1[0] < v);
                assert(d1.contains(v));
                let j = choose|j: int| 0 <= j < d2.len() && #[trigger] d2[j] == v;
                assert(j > 0);
                assert(e2[j - 1] == v);
            }
            if e2.contains(v) {
                let i = choose|i: int| 0 <= i < e2.len() && #[trigger] e2[i] == v;
                assert(d2[i + 1] == v && d2[0] < v);
                assert(d2.contains(v));
                let j = choose|j: int| 0 <= j < d1.len() && #[trigger] d1[j] == v;
                assert(j > 0);
                assert(e1[j - 1] == v);
            }
        }
        lemma_sorted_dirty_unique(e1, e2);
        assert forall|i: int| 0 <= i < d1.len() implies d1[i] == d2[i] by {
            if i > 0 {
                assert(e1[i - 1] == e2[i - 1]);
            }
        }
    }
}

/// Cells that do not hold air, over a block sequence.
pub open spec fn count_non_air(cells: Seq<u32>) -> int
    decreases cells.len(),
{
    if cells.len() == 0 {
        0
    } else {
        count_non_air(cells.drop_last()) + if cells.last() != super::BLOCK_AIR {
            1int
        } else {
            0int
        }
    }
}

} // verus!
