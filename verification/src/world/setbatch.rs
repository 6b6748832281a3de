//! Batched block edits: a burst of writes pays one split and one
//! collapse per touched section instead of one per write.

use vstd::prelude::*;
use super::World;
use super::chunk_section;

verus! {

/// A batch of block writes against a world. Each write splits its
/// section into unit runs once, overwrites cells directly, and the
/// closing [`SetBlockBatch::finish`] collapses every touched section
/// back into canonical form.
pub struct SetBlockBatch {
    touched: Vec<(i32, u32, i32)>,
}

/// A section held in fully split form: 4096 unit runs, one per cell.
pub open spec fn split_state(w: &World, cx: int, sec: int, cz: int) -> bool {
    &&& w.has_chunk(cx, cz)
    &&& 0 <= sec < w.chunk_at(cx, cz).sections_view().len()
    &&& w.chunk_at(cx, cz).sections_view()[sec].runs_view().len() == 4096
    &&& forall|j: int| 0 <= j < 4096 ==> (#[trigger] w.chunk_at(cx, cz).sections_view()[sec]
        .runs_view()[j]).0 == 1
}

/// Whether a block write at the given coordinates has somewhere to
/// land: its chunk is loaded and its section index is inside the
/// column.
pub open spec fn set_target_exists(w: &World, x: i64, y: u16, z: i64) -> bool {
    &&& w.has_chunk(x as int / 16, z as int / 16)
    &&& y as int / 16 < w.chunk_at(x as int / 16, z as int / 16).sections_view().len()
}

/// Every world field a block write leaves alone: the chunk list's
/// length, every position and readiness flag, every section count,
/// and the queues.
pub open spec fn same_shape(w1: &World, w2: &World) -> bool {
    &&& w1.chunks_view().len() == w2.chunks_view().len()
    &&& w1.newly_loaded_view() == w2.newly_loaded_view()
    &&& w1.ready_view() == w2.ready_view()
    &&& w1.spec_height() == w2.spec_height()
    &&& w1.dim_id_view() == w2.dim_id_view()
    &&& forall|i: int| 0 <= i < w1.chunks_view().len() ==> (#[trigger] w1.chunks_view()[i]).cx
        == w2.chunks_view()[i].cx && w1.chunks_view()[i].cz == w2.chunks_view()[i].cz
        && w1.chunks_view()[i].chunk.spec_ready() == w2.chunks_view()[i].chunk.spec_ready()
        && w1.chunks_view()[i].chunk.sections_view().len() == w2.chunks_view()[i].chunk
        .sections_view().len()
}

impl SetBlockBatch {
    /// The `(chunk x, section index, chunk z)` triples split so far,
    /// in first-touch order.
    pub closed spec fn touched_view(&self) -> Seq<(i32, u32, i32)> {
        self.touched@
    }

    /// Whether the batch has split the named section already.
    pub open spec fn is_touched(&self, cx: int, sec: int, cz: int) -> bool {
        exists|k: int| 0 <= k < self.touched_view().len() && (#[trigger] self.touched_view()[k])
            == (cx as i32, sec as u32, cz as i32)
    }

    /// The batch invariant against a world: every touched section sits
    /// in split form, every untouched section in canonical form.
    pub open spec fn inv(&self, w: &World) -> bool {
        &&& w.wf()
        &&& forall|k: int| 0 <= k < self.touched_view().len() ==> split_state(
            w,
            (#[trigger] self.touched_view()[k]).0 as int,
            self.touched_view()[k].1 as int,
            self.touched_view()[k].2 as int,
        )
        &&& forall|i: int, s: int| 0 <= i < w.chunks_view().len() && 0 <= s
            < w.chunks_view()[i].chunk.sections_view().len() && !self.is_touched(
            w.chunks_view()[i].cx as int,
            s,
            w.chunks_view()[i].cz as int,
        ) ==> chunk_section::collapsed(
            #[trigger] w.chunks_view()[i].chunk.sections_view()[s].runs_view(),
        )
    }

    /// An empty batch over a world in canonical form.
    pub fn new(w: &World) -> (r: Self)
        requires
            w.wf(),
            w.canonical(),
        ensures
            r.inv(w),
            r.touched_view() =~= Seq::<(i32, u32, i32)>::empty(),
    {
        SetBlockBatch { touched: Vec::new() }
    }

    /// Whether the named section was split already.
    fn contains_touched(&self, cx: i32, sec: u32, cz: i32) -> (r: bool)
        ensures
            r == self.is_touched(cx as int, sec as int, cz as int),
    {
        let mut k: usize = 0;
        while k < self.touched.len()
            invariant
                k <= self.touched@.len(),
                forall|q: int| 0 <= q < k ==> (#[trigger] self.touched@[q]) != (cx, sec, cz),
            decreases self.touched@.len() - k,
        {
            let entry = self.touched[k];
            if entry.0 == cx && entry.1 == sec && entry.2 == cz {
                assert(self.touched_view()[k as int] == (cx, sec, cz));
                return true;
            }
            k = k + 1;
        }
        assert(!self.is_touched(cx as int, sec as int, cz as int)) by {
            if self.is_touched(cx as int, sec as int, cz as int) {
                let w = choose|w: int| 0 <= w < self.touched_view().len()
                    && (#[trigger] self.touched_view()[w]) == (cx, sec, cz);
                assert(self.touched@[w] == (cx, sec, cz));
            }
        }
        false
    }

    /// Write one block. The cell's chunk and section are selected in
    /// Euclidean-floor arithmetic; a write into an unloaded chunk or a
    /// section above the column is silently skipped. On first touch of
    /// a section the batch splits it; the write lands as a point
    /// update of that section's blocks and marks the cell dirty.
    pub fn set(&mut self, w: &mut World, x: i64, y: u16, z: i64, block: u32)
        requires
            old(self).inv(old(w)),
            super::coord_in_range(x),
            super::coord_in_range(z),
        ensures
            final(self).inv(final(w)),
            same_shape(final(w), old(w)),
            forall|xo: int, yo: int, zo: int| #[trigger] final(w).spec_block_at(xo, yo, zo) == (
                if xo == x as int && yo == y as int && zo == z as int && old(w).spec_block_at(
                    xo,
                    yo,
                    zo,
                ) is Some {
                    Some(block)
                } else {
                    old(w).spec_block_at(xo, yo, zo)
                }
            ),
            !set_target_exists(old(w), x, y, z) ==> *final(w) == *old(w) && *final(self) == *old(
                self,
            ),
            set_target_exists(old(w), x, y, z) ==> ({
                let cx = x as int / 16;
                let cz = z as int / 16;
                let sec = y as int / 16;
                let lin = super::spec_linearise(
                    (x as int % 16) as u8,
                    (y as int % 16) as u8,
                    (z as int % 16) as u8,
                );
                let ci = super::find_pos(old(w).chunks_view(), cx, cz);
                // The written cell joins the target section's dirty
                // set; every other section is untouched entirely.
                &&& (forall|v: u16| #[trigger] final(w).chunk_at(cx, cz).sections_view()[
                    sec
                ].dirty_view().contains(v) <==> old(w).chunk_at(cx, cz).sections_view()[
                    sec
                ].dirty_view().contains(v) || v == lin)
                &&& (forall|i: int, si: int| 0 <= i < final(w).chunks_view().len() && 0 <= si
                    < final(w).chunks_view()[i].chunk.sections_view().len() && !(i == ci && si
                    == sec) ==> (#[trigger] final(w).chunks_view()[i].chunk.sections_view()[si])
                    == old(w).chunks_view()[i].chunk.sections_view()[si])
                // The section is split on first touch only.
                &&& (old(self).is_touched(cx, sec, cz) ==> final(self).touched_view() == old(
                    self,
                ).touched_view())
                &&& (!old(self).is_touched(cx, sec, cz) ==> final(self).touched_view() =~= old(
                    self,
                ).touched_view().push((cx as i32, sec as u32, cz as i32)))
            }),
    {
        let cx = super::floor_div_16(x) as i32;
        let cz = super::floor_div_16(z) as i32;
        let sec = y / 16;
        let dx = super::rem_euclid_16(x);
        let dy = (y % 16) as u8;
        let dz = super::rem_euclid_16(z);
        let ci = w.find_chunk(cx, cz);
        proof {
            super::lemma_find_pos(w.chunks_view(), cx as int, cz as int);
        }
        if ci >= w.chunk_count() {
            proof {
                assert(!old(w).has_chunk(x as int / 16, z as int / 16));
            }
            return;
        }
        if sec as usize >= w.section_count_at(ci) {
            return;
        }
        let lin = super::in_section_block_linearise(dx, dy, dz);
        if !self.contains_touched(cx, sec as u32, cz) {
            w.section_split(ci, sec as usize);
            self.touched.push((cx, sec as u32, cz));
            proof {
                assert(old(self).touched_view() =~= self.touched_view().drop_last());
                assert forall|k: int| 0 <= k < self.touched_view().len() implies split_state(
                    w,
                    (#[trigger] self.touched_view()[k]).0 as int,
                    self.touched_view()[k].1 as int,
                    self.touched_view()[k].2 as int,
                ) by {
                    if k < self.touched_view().len() - 1 {
                        assert(old(self).touched_view()[k] == self.touched_view()[k]);
                        lemma_split_state_preserved(
                            old(w),
                            w,
                            self.touched_view()[k].0 as int,
                            self.touched_view()[k].1 as int,
                            self.touched_view()[k].2 as int,
                            ci as int,
                            sec as int,
                        );
                    } else {
                        assert(self.touched_view()[k] == (cx, sec as u32, cz));
                    }
                }
            }
        } else {
            proof {
                let k = choose|k: int| 0 <= k < self.touched_view().len()
                    && (#[trigger] self.touched_view()[k]) == (cx, sec as u32, cz);
                assert(split_state(w, cx as int, sec as int, cz as int));
            }
        }
        let ghost w_mid = *w;
        let ghost self_mid = *self;
        proof {
            lemma_blocks_preserved(old(w), &w_mid, ci as int, sec as int);
            assert(split_state(&w_mid, cx as int, sec as int, cz as int));
        }
        w.section_overwrite(ci, sec as usize, lin, block);
        proof {
            // The touched sections stay split, the untouched ones
            // canonical: the overwrite only changed a touched section.
            assert forall|k: int| 0 <= k < self.touched_view().len() implies split_state(
                w,
                (#[trigger] self.touched_view()[k]).0 as int,
                self.touched_view()[k].1 as int,
                self.touched_view()[k].2 as int,
            ) by {
                lemma_split_state_preserved(
                    &w_mid,
                    w,
                    self.touched_view()[k].0 as int,
                    self.touched_view()[k].1 as int,
                    self.touched_view()[k].2 as int,
                    ci as int,
                    sec as int,
                );
            }
            assert forall|i: int, s: int| 0 <= i < w.chunks_view().len() && 0 <= s
                < w.chunks_view()[i].chunk.sections_view().len() && !self.is_touched(
                w.chunks_view()[i].cx as int,
                s,
                w.chunks_view()[i].cz as int,
            ) implies chunk_section::collapsed(
                #[trigger] w.chunks_view()[i].chunk.sections_view()[s].runs_view(),
            ) by {
                let wcx = w.chunks_view()[i].cx as int;
                let wcz = w.chunks_view()[i].cz as int;
                assert(!old(self).is_touched(wcx, s, wcz)) by {
                    if old(self).is_touched(wcx, s, wcz) {
                        let k = choose|k: int| 0 <= k < old(self).touched_view().len()
                            && (#[trigger] old(self).touched_view()[k])
                                == (wcx as i32, s as u32, wcz as i32);
                        assert(self.touched_view()[k] == old(self).touched_view()[k]);
                    }
                }
                assert(self.is_touched(cx as int, sec as int, cz as int)) by {
                    if self.touched_view().len() > old(self).touched_view().len() {
                        assert(self.touched_view()[self.touched_view().len() - 1]
                            == (cx, sec as u32, cz));
                    }
                }
                if i == ci as int && s == sec as int {
                    super::lemma_find_pos(old(w).chunks_view(), cx as int, cz as int);
                    assert(w.chunks_view()[i].cx == cx && w.chunks_view()[i].cz == cz);
                    assert(false);
                } else {
                    assert(w.chunks_view()[i].chunk.sections_view()[s]
                        == w_mid.chunks_view()[i].chunk.sections_view()[s]);
                    assert(w_mid.chunks_view()[i].cx as int == wcx
                        && w_mid.chunks_view()[i].cz as int == wcz);
                    if i != ci as int || sec as int != s {
                        assert(w_mid.chunks_view()[i].chunk.sections_view()[s]
                            == old(w).chunks_view()[i].chunk.sections_view()[s]);
                    }
                    assert(old(w).chunks_view()[i].cx as int == wcx
                        && old(w).chunks_view()[i].cz as int == wcz);
                }
            }
            // Point-update effect on the world's block view.
            let s_old = w_mid.chunks_view()[ci as int].chunk.sections_view()[sec as int];
            let s_new = w.chunks_view()[ci as int].chunk.sections_view()[sec as int];
            assert(w_mid.chunks_view()[ci as int].chunk.wf());
            assert(s_old.wf());
            s_old.lemma_wf_len();
            assert(s_new.blocks() =~= s_old.blocks().update(lin as int, block));
            assert forall|xo: int, yo: int, zo: int| #[trigger] w.spec_block_at(xo, yo, zo) == (
                if xo == x as int && yo == y as int && zo == z as int && old(w).spec_block_at(
                    xo,
                    yo,
                    zo,
                ) is Some {
                    Some(block)
                } else {
                    old(w).spec_block_at(xo, yo, zo)
                }
            ) by {
                lemma_point_update(
                    old(w),
                    &w_mid,
                    w,
                    x as int,
                    y as int,
                    z as int,
                    xo,
                    yo,
                    zo,
                    ci as int,
                    sec as int,
                    lin,
                    block,
                );
            }
        }
    }
}

impl SetBlockBatch {
    /// Whether any entry from index `k` on names the given section.
    pub open spec fn touched_from(&self, k: int, cx: int, sec: int, cz: int) -> bool {
        exists|q: int| k <= q < self.touched_view().len() && (#[trigger] self.touched_view()[q])
            == (cx as i32, sec as u32, cz as i32)
    }

    /// Close the batch: collapse every touched section back into
    /// canonical run-length form. No block and no dirty index changes.
    pub fn finish(self, w: &mut World)
        requires
            self.inv(old(w)),
        ensures
            final(w).wf(),
            final(w).canonical(),
            same_shape(final(w), old(w)),
            forall|xo: int, yo: int, zo: int| #[trigger] final(w).spec_block_at(xo, yo, zo)
                == old(w).spec_block_at(xo, yo, zo),
            forall|i: int, s: int| 0 <= i < final(w).chunks_view().len()
                && 0 <= s < final(w).chunks_view()[i].chunk.sections_view().len()
                ==> (#[trigger] final(w).chunks_view()[i].chunk.sections_view()[s]).dirty_view()
                    == old(w).chunks_view()[i].chunk.sections_view()[s].dirty_view(),
    {
        let mut k: usize = 0;
        while k < self.touched.len()
            invariant
                k <= self.touched@.len(),
                w.wf(),
                same_shape(w, old(w)),
                forall|ax: int, az: int| #[trigger] super::find_pos(w.chunks_view(), ax, az)
                    == super::find_pos(old(w).chunks_view(), ax, az),
                forall|xo: int, yo: int, zo: int| #[trigger] w.spec_block_at(xo, yo, zo)
                    == old(w).spec_block_at(xo, yo, zo),
                forall|i: int, s: int| 0 <= i < w.chunks_view().len() && 0 <= s
                    < w.chunks_view()[i].chunk.sections_view().len()
                    ==> (#[trigger] w.chunks_view()[i].chunk.sections_view()[s]).dirty_view()
                        == old(w).chunks_view()[i].chunk.sections_view()[s].dirty_view(),
                forall|i: int, s: int| 0 <= i < w.chunks_view().len() && 0 <= s
                    < w.chunks_view()[i].chunk.sections_view().len() && !self.touched_from(
                    k as int,
                    w.chunks_view()[i].cx as int,
                    s,
                    w.chunks_view()[i].cz as int,
                ) ==> chunk_section::collapsed(
                    #[trigger] w.chunks_view()[i].chunk.sections_view()[s].runs_view(),
                ),
                forall|q: int| 0 <= q < self.touched_view().len() ==> w.has_chunk(
                    (#[trigger] self.touched_view()[q]).0 as int,
                    self.touched_view()[q].2 as int,
                ) && 0 <= self.touched_view()[q].1 < w.chunk_at(
                    self.touched_view()[q].0 as int,
                    self.touched_view()[q].2 as int,
                ).sections_view().len(),
            decreases self.touched@.len() - k,
        {
            let (tcx, tsec, tcz) = self.touched[k];
            let ci = w.find_chunk(tcx, tcz);
            proof {
                assert(self.touched_view()[k as int] == (tcx, tsec, tcz));
                assert(w.has_chunk(tcx as int, tcz as int));
                super::lemma_find_pos(w.chunks_view(), tcx as int, tcz as int);
            }
            if ci < w.chunk_count() && (tsec as usize) < w.section_count_at(ci) {
                let ghost w_mid = *w;
                w.section_collapse(ci, tsec as usize);
                proof {
                    lemma_blocks_preserved(&w_mid, w, ci as int, tsec as int);
                    assert forall|q: int| 0 <= q < self.touched_view().len() implies w.has_chunk(
                        (#[trigger] self.touched_view()[q]).0 as int,
                        self.touched_view()[q].2 as int,
                    ) && 0 <= self.touched_view()[q].1 < w.chunk_at(
                        self.touched_view()[q].0 as int,
                        self.touched_view()[q].2 as int,
                    ).sections_view().len() by {
                        let qx = self.touched_view()[q].0 as int;
                        let qz = self.touched_view()[q].2 as int;
                        assert(w_mid.has_chunk(qx, qz));
                        let p = super::find_pos(w_mid.chunks_view(), qx, qz);
                        super::lemma_find_pos(w_mid.chunks_view(), qx, qz);
                        assert(super::find_pos(w.chunks_view(), qx, qz) == p);
                        assert(w.chunks_view()[p].chunk.sections_view().len()
                            == w_mid.chunks_view()[p].chunk.sections_view().len());
                    }
                    assert forall|i: int, s: int| 0 <= i < w.chunks_view().len() && 0 <= s
                        < w.chunks_view()[i].chunk.sections_view().len() && !self.touched_from(
                        k + 1,
                        w.chunks_view()[i].cx as int,
                        s,
                        w.chunks_view()[i].cz as int,
                    ) implies chunk_section::collapsed(
                        #[trigger] w.chunks_view()[i].chunk.sections_view()[s].runs_view(),
                    ) by {
                        if i == ci as int && s == tsec as int {
                        } else {
                            assert(w.chunks_view()[i].chunk.sections_view()[s]
                                == w_mid.chunks_view()[i].chunk.sections_view()[s]);
                            assert(!self.touched_from(
                                k as int,
                                w_mid.chunks_view()[i].cx as int,
                                s,
                                w_mid.chunks_view()[i].cz as int,
                            )) by {
                                if self.touched_from(
                                    k as int,
                                    w_mid.chunks_view()[i].cx as int,
                                    s,
                                    w_mid.chunks_view()[i].cz as int,
                                ) {
                                    let q = choose|q: int| k <= q < self.touched_view().len()
                                        && (#[trigger] self.touched_view()[q]) == (
                                        w_mid.chunks_view()[i].cx,
                                        s as u32,
                                        w_mid.chunks_view()[i].cz,
                                    );
                                    if q == k {
                                        // The entry processed now names
                                        // chunk i, so i is the target.
                                        super::lemma_find_pos_self(w_mid.chunks_view(), i);
                                        assert(ci as int == i && tsec as int == s);
                                    }
                                }
                            }
                        }
                    }
                }
            } else {
                proof {
                    assert(false);
                }
            }
            k = k + 1;
        }
        proof {
            assert forall|i: int, s: int| 0 <= i < w.chunks_view().len() && 0 <= s
                < w.chunks_view()[i].chunk.sections_view().len() implies chunk_section::collapsed(
                #[trigger] w.chunks_view()[i].chunk.sections_view()[s].runs_view(),
            ) by {
                assert(!self.touched_from(
                    self.touched_view().len() as int,
                    w.chunks_view()[i].cx as int,
                    s,
                    w.chunks_view()[i].cz as int,
                ));
            }
        }
    }
}

/// The block the last matching edit of a sequence wrote to the given
/// coordinate, if any edit addressed it.
pub open spec fn last_write(edits: Seq<((i64, u16, i64), u32)>, x: int, y: int, z: int) -> Option<
    u32,
>
    decreases edits.len(),
{
    if edits.len() == 0 {
        None
    } else if edits.last().0.0 == x && edits.last().0.1 == y && edits.last().0.2 == z {
        Some(edits.last().1)
    } else {
        last_write(edits.drop_last(), x, y, z)
    }
}

/// Whether an edit list writes the cell with linear index `v` in the
/// section named by `(cx, sec, cz)`.
pub open spec fn edit_marks(
    edits: Seq<((i64, u16, i64), u32)>,
    cx: int,
    cz: int,
    sec: int,
    v: u16,
) -> bool {
    exists|k: int| 0 <= k < edits.len() && ((#[trigger] edits[k]).0.0 as int / 16 == cx
        && edits[k].0.2 as int / 16 == cz && edits[k].0.1 as int / 16 == sec
        && super::spec_linearise(
        (edits[k].0.0 as int % 16) as u8,
        (edits[k].0.1 as int % 16) as u8,
        (edits[k].0.2 as int % 16) as u8,
    ) == v)
}

/// Taking one more edit adds exactly that edit's mark.
proof fn lemma_edit_marks_take_step(
    edits: Seq<((i64, u16, i64), u32)>,
    i: int,
    cx: int,
    cz: int,
    sec: int,
    v: u16,
)
    requires
        0 <= i < edits.len(),
    ensures
        edit_marks(edits.take(i + 1), cx, cz, sec, v) <==> edit_marks(edits.take(i), cx, cz, sec, v)
            || (edits[i].0.0 as int / 16 == cx && edits[i].0.2 as int / 16 == cz && edits[i].0.1
            as int / 16 == sec && super::spec_linearise(
            (edits[i].0.0 as int % 16) as u8,
            (edits[i].0.1 as int % 16) as u8,
            (edits[i].0.2 as int % 16) as u8,
        ) == v),
{
    let t0 = edits.take(i);
    let t1 = edits.take(i + 1);
    if edit_marks(t1, cx, cz, sec, v) {
        let k = choose|k: int| 0 <= k < t1.len() && ((#[trigger] t1[k]).0.0 as int / 16 == cx
            && t1[k].0.2 as int / 16 == cz && t1[k].0.1 as int / 16 == sec
            && super::spec_linearise(
            (t1[k].0.0 as int % 16) as u8,
            (t1[k].0.1 as int % 16) as u8,
            (t1[k].0.2 as int % 16) as u8,
        ) == v);
        if k < i {
            assert(t0[k] == t1[k]);
        } else {
            assert(t1[k] == edits[i]);
        }
    }
    if edit_marks(t0, cx, cz, sec, v) {
        let k = choose|k: int| 0 <= k < t0.len() && ((#[trigger] t0[k]).0.0 as int / 16 == cx
            && t0[k].0.2 as int / 16 == cz && t0[k].0.1 as int / 16 == sec
            && super::spec_linearise(
            (t0[k].0.0 as int % 16) as u8,
            (t0[k].0.1 as int % 16) as u8,
            (t0[k].0.2 as int % 16) as u8,
        ) == v);
        assert(t1[k] == t0[k]);
    }
    if edits[i].0.0 as int / 16 == cx && edits[i].0.2 as int / 16 == cz && edits[i].0.1 as int / 16
        == sec && super::spec_linearise(
        (edits[i].0.0 as int % 16) as u8,
        (edits[i].0.1 as int % 16) as u8,
        (edits[i].0.2 as int % 16) as u8,
    ) == v {
        assert(t1[i] == edits[i]);
    }
}

impl World {
    /// Apply a burst of block edits through one batch: each section is
    /// split once, every edit lands in order, and every touched
    /// section is collapsed at the end. Afterwards each loaded cell
    /// holds the last value written to it, or its prior value if no
    /// edit addressed it; edits aimed at unloaded chunks or sections
    /// are dropped.
    pub fn set_blocks(&mut self, edits: &Vec<((i64, u16, i64), u32)>)
        requires
            old(self).wf(),
            old(self).canonical(),
            forall|k: int| 0 <= k < edits@.len() ==> super::coord_in_range(
                (#[trigger] edits@[k]).0.0,
            ) && super::coord_in_range(edits@[k].0.2),
        ensures
            final(self).wf(),
            final(self).canonical(),
            same_shape(final(self), old(self)),
            forall|xo: int, yo: int, zo: int| #[trigger] final(self).spec_block_at(xo, yo, zo)
                == (if old(self).spec_block_at(xo, yo, zo) is Some && last_write(
                edits@,
                xo,
                yo,
                zo,
            ) is Some {
                last_write(edits@, xo, yo, zo)
            } else {
                old(self).spec_block_at(xo, yo, zo)
            }),
            forall|i: int, s: int, v: u16| 0 <= i < final(self).chunks_view().len() && 0 <= s
                < final(self).chunks_view()[i].chunk.sections_view().len() ==> ((
            #[trigger] final(self).chunks_view()[i].chunk.sections_view()[s].dirty_view().contains(
                v,
            )) <==> old(self).chunks_view()[i].chunk.sections_view()[s].dirty_view().contains(v)
                || edit_marks(
                edits@,
                final(self).chunks_view()[i].cx as int,
                final(self).chunks_view()[i].cz as int,
                s,
                v,
            )),
    {
        let mut batch = SetBlockBatch::new(self);
        let mut i: usize = 0;
        while i < edits.len()
            invariant
                i <= edits@.len(),
                batch.inv(self),
                same_shape(self, old(self)),
                forall|k: int| 0 <= k < edits@.len() ==> super::coord_in_range(
                    (#[trigger] edits@[k]).0.0,
                ) && super::coord_in_range(edits@[k].0.2),
                forall|xo: int, yo: int, zo: int| #[trigger] self.spec_block_at(xo, yo, zo) == (
                    if old(self).spec_block_at(xo, yo, zo) is Some && last_write(
                        edits@.take(i as int),
                        xo,
                        yo,
                        zo,
                    ) is Some {
                        last_write(edits@.take(i as int), xo, yo, zo)
                    } else {
                        old(self).spec_block_at(xo, yo, zo)
                    }
                ),
                forall|q: int, s: int, v: u16| 0 <= q < self.chunks_view().len() && 0 <= s
                    < self.chunks_view()[q].chunk.sections_view().len() ==> ((
                #[trigger] self.chunks_view()[q].chunk.sections_view()[s].dirty_view().contains(
                    v,
                )) <==> old(self).chunks_view()[q].chunk.sections_view()[s].dirty_view().contains(
                    v,
                ) || edit_marks(
                    edits@.take(i as int),
                    self.chunks_view()[q].cx as int,
                    self.chunks_view()[q].cz as int,
                    s,
                    v,
                )),
            decreases edits@.len() - i,
        {
            let ((x, y, z), block) = edits[i];
            let ghost before = *self;
            batch.set(self, x, y, z, block);
            i = i + 1;
            proof {
                let t1 = edits@.take(i as int);
                assert(t1.drop_last() =~= edits@.take(i - 1));
                assert(t1.last() == edits@[i - 1]);
                assert forall|xo: int, yo: int, zo: int| #[trigger] self.spec_block_at(xo, yo, zo)
                    == (if old(self).spec_block_at(xo, yo, zo) is Some && last_write(
                    t1,
                    xo,
                    yo,
                    zo,
                ) is Some {
                    last_write(t1, xo, yo, zo)
                } else {
                    old(self).spec_block_at(xo, yo, zo)
                }) by {
                    assert(before.spec_block_at(xo, yo, zo) == (if old(self).spec_block_at(
                        xo,
                        yo,
                        zo,
                    ) is Some && last_write(edits@.take(i - 1), xo, yo, zo) is Some {
                        last_write(edits@.take(i - 1), xo, yo, zo)
                    } else {
                        old(self).spec_block_at(xo, yo, zo)
                    }));
                }
                assert(edits@[i - 1] == ((x, y, z), block));
                assert forall|q: int, s: int, v: u16| 0 <= q < self.chunks_view().len() && 0 <= s
                    < self.chunks_view()[q].chunk.sections_view().len() implies ((
                #[trigger] self.chunks_view()[q].chunk.sections_view()[s].dirty_view().contains(
                    v,
                )) <==> old(self).chunks_view()[q].chunk.sections_view()[s].dirty_view().contains(
                    v,
                ) || edit_marks(
                    edits@.take(i as int),
                    self.chunks_view()[q].cx as int,
                    self.chunks_view()[q].cz as int,
                    s,
                    v,
                )) by {
                    let cxq = self.chunks_view()[q].cx as int;
                    let czq = self.chunks_view()[q].cz as int;
                    lemma_edit_marks_take_step(edits@, i - 1, cxq, czq, s, v);
                    assert(before.chunks_view()[q].cx as int == cxq && before.chunks_view()[
                        q
                    ].cz as int == czq);
                    let hits = edits@[i - 1].0.0 as int / 16 == cxq && edits@[i - 1].0.2 as int
                        / 16 == czq && edits@[i - 1].0.1 as int / 16 == s;
                    if set_target_exists(&before, x, y, z) {
                        let cx = x as int / 16;
                        let cz = z as int / 16;
                        let sec = y as int / 16;
                        let ci = super::find_pos(before.chunks_view(), cx, cz);
                        super::lemma_find_pos(before.chunks_view(), cx, cz);
                        super::lemma_find_pos_same_positions_all(self, &before);
                        assert(super::find_pos(self.chunks_view(), cx, cz) == ci);
                        if q == ci && s == sec {
                            assert(self.chunk_at(cx, cz) == self.chunks_view()[q].chunk);
                            assert(before.chunk_at(cx, cz) == before.chunks_view()[q].chunk);
                            assert(cxq == cx && czq == cz);
                        } else {
                            assert(self.chunks_view()[q].chunk.sections_view()[s]
                                == before.chunks_view()[q].chunk.sections_view()[s]);
                            if hits {
                                super::lemma_find_pos_self(before.chunks_view(), q);
                                assert(ci == q && sec == s);
                                assert(false);
                            }
                        }
                    } else {
                        assert(*self == before);
                        if hits {
                            super::lemma_find_pos_self(before.chunks_view(), q);
                            assert(before.has_chunk(cxq, czq));
                            assert(before.chunk_at(cxq, czq) == before.chunks_view()[q].chunk);
                            assert(set_target_exists(&before, x, y, z));
                            assert(false);
                        }
                    }
                }
            }
        }
        proof {
            assert(edits@.take(edits@.len() as int) =~= edits@);
        }
        batch.finish(self);
    }
}

/// Splitting or overwriting inside one section leaves every other
/// split section split.
proof fn lemma_split_state_preserved(
    w_old: &World,
    w_new: &World,
    cx: int,
    sec: int,
    cz: int,
    ci: int,
    si: int,
)
    requires
        split_state(w_old, cx, sec, cz),
        w_new.same_except_section(w_old, ci, si),
        forall|ax: int, az: int| #[trigger] super::find_pos(w_new.chunks_view(), ax, az)
            == super::find_pos(w_old.chunks_view(), ax, az),
        0 <= ci < w_new.chunks_view().len(),
        0 <= si < w_new.chunks_view()[ci].chunk.sections_view().len(),
        w_new.chunks_view()[ci].chunk.sections_view()[si].runs_view().len() == 4096,
        forall|j: int| 0 <= j < 4096 ==> (#[trigger] w_new.chunks_view()[ci].chunk.sections_view()[
            si
        ].runs_view()[j]).0 == 1,
    ensures
        split_state(w_new, cx, sec, cz),
{
    super::lemma_find_pos(w_old.chunks_view(), cx, cz);
    let p = super::find_pos(w_old.chunks_view(), cx, cz);
    if !(p == ci && sec == si) {
        assert(w_new.chunks_view()[p].chunk.sections_view()[sec] == w_old.chunks_view()[p].chunk
            .sections_view()[sec]);
    }
}

/// A change confined to one section whose blocks are preserved leaves
/// the whole world's block view unchanged.
proof fn lemma_blocks_preserved(w_old: &World, w_new: &World, ci: int, si: int)
    requires
        w_new.same_except_section(w_old, ci, si),
        forall|ax: int, az: int| #[trigger] super::find_pos(w_new.chunks_view(), ax, az)
            == super::find_pos(w_old.chunks_view(), ax, az),
        0 <= ci < w_new.chunks_view().len(),
        0 <= si < w_new.chunks_view()[ci].chunk.sections_view().len() ==> w_new.chunks_view()[
            ci
        ].chunk.sections_view()[si].blocks() =~= w_old.chunks_view()[ci].chunk.sections_view()[
            si
        ].blocks(),
    ensures
        forall|xo: int, yo: int, zo: int| #[trigger] w_new.spec_block_at(xo, yo, zo)
            == w_old.spec_block_at(xo, yo, zo),
{
    assert forall|xo: int, yo: int, zo: int| #[trigger] w_new.spec_block_at(xo, yo, zo)
        == w_old.spec_block_at(xo, yo, zo) by {
        let cxo = xo / 16;
        let czo = zo / 16;
        let seco = yo / 16;
        if w_old.has_chunk(cxo, czo) {
            super::lemma_find_pos(w_old.chunks_view(), cxo, czo);
            let p = super::find_pos(w_old.chunks_view(), cxo, czo);
            if 0 <= seco < w_old.chunks_view()[p].chunk.sections_view().len() {
                if !(p == ci && seco == si) {
                    assert(w_new.chunks_view()[p].chunk.sections_view()[seco]
                        == w_old.chunks_view()[p].chunk.sections_view()[seco]);
                }
            }
        }
    }
}

/// After a point overwrite of one cell, the world's block view is the
/// old view updated at exactly the written coordinate.
proof fn lemma_point_update(
    w_old: &World,
    w_mid: &World,
    w_new: &World,
    x: int,
    y: int,
    z: int,
    xo: int,
    yo: int,
    zo: int,
    ci: int,
    sec: int,
    lin: u16,
    block: u32,
)
    requires
        forall|ax: int, az: int| #[trigger] super::find_pos(w_mid.chunks_view(), ax, az)
            == super::find_pos(w_old.chunks_view(), ax, az),
        forall|ax: int, az: int| #[trigger] super::find_pos(w_new.chunks_view(), ax, az)
            == super::find_pos(w_mid.chunks_view(), ax, az),
        w_mid.chunks_view().len() == w_old.chunks_view().len(),
        forall|i: int| 0 <= i < w_mid.chunks_view().len() ==> (#[trigger] w_mid.chunks_view()[
            i
        ]).cx == w_old.chunks_view()[i].cx && w_mid.chunks_view()[i].cz == w_old.chunks_view()[
            i
        ].cz && w_mid.chunks_view()[i].chunk.sections_view().len() == w_old.chunks_view()[i].chunk
            .sections_view().len(),
        forall|px: int, py: int, pz: int| #[trigger] w_mid.spec_block_at(px, py, pz)
            == w_old.spec_block_at(px, py, pz),
        w_new.same_except_section(w_mid, ci, sec),
        0 <= ci < w_new.chunks_view().len(),
        0 <= sec < w_new.chunks_view()[ci].chunk.sections_view().len(),
        ci == super::find_pos(w_old.chunks_view(), x / 16, z / 16),
        w_old.has_chunk(x / 16, z / 16),
        sec == y / 16,
        0 <= y,
        lin == super::spec_linearise((x % 16) as u8, (y % 16) as u8, (z % 16) as u8),
        w_new.chunks_view()[ci].chunk.sections_view()[sec].blocks() =~= w_mid.chunks_view()[
            ci
        ].chunk.sections_view()[sec].blocks().update(lin as int, block),
        w_mid.chunks_view()[ci].chunk.sections_view()[sec].blocks().len() == 4096,
    ensures
        w_new.spec_block_at(xo, yo, zo) == (
            if xo == x && yo == y && zo == z && w_old.spec_block_at(xo, yo, zo) is Some {
                Some(block)
            } else {
                w_old.spec_block_at(xo, yo, zo)
            }
        ),
{
    super::lemma_linearise_round_trip((x % 16) as u8, (y % 16) as u8, (z % 16) as u8);
    let cxo = xo / 16;
    let czo = zo / 16;
    let seco = yo / 16;
    assert(w_mid.spec_block_at(xo, yo, zo) == w_old.spec_block_at(xo, yo, zo));
    assert(w_mid.spec_block_at(x, y, z) == w_old.spec_block_at(x, y, z));
    super::lemma_find_pos(w_old.chunks_view(), cxo, czo);
    super::lemma_find_pos(w_old.chunks_view(), x / 16, z / 16);
    if w_old.has_chunk(cxo, czo) {
        let p = super::find_pos(w_old.chunks_view(), cxo, czo);
        assert(super::find_pos(w_mid.chunks_view(), cxo, czo) == p);
        assert(super::find_pos(w_new.chunks_view(), cxo, czo) == p);
        assert(w_mid.chunks_view()[p].chunk.sections_view().len() == w_old.chunks_view()[p].chunk
            .sections_view().len());
        assert(w_new.chunks_view()[p].chunk.sections_view().len() == w_mid.chunks_view()[p].chunk
            .sections_view().len());
        if 0 <= seco < w_old.chunks_view()[p].chunk.sections_view().len() {
            if p == ci && seco == sec {
                // Same section: the two cells agree exactly when the
                // linear indices do, which pins the coordinates.
                let lino = super::spec_linearise((xo % 16) as u8, (yo % 16) as u8, (zo % 16) as u8);
                super::lemma_linearise_round_trip(
                    (xo % 16) as u8,
                    (yo % 16) as u8,
                    (zo % 16) as u8,
                );
                assert(w_old.chunks_view()[p].cx as int == cxo && w_old.chunks_view()[p].cz as int
                    == czo);
                assert(w_old.chunks_view()[ci].cx as int == x / 16 && w_old.chunks_view()[
                    ci
                ].cz as int == z / 16);
                assert(cxo == x / 16 && czo == z / 16);
                let blocks_mid = w_mid.chunks_view()[ci].chunk.sections_view()[sec].blocks();
                let blocks_new = w_new.chunks_view()[ci].chunk.sections_view()[sec].blocks();
                assert(blocks_new[lino as int] == if lino == lin {
                    block
                } else {
                    blocks_mid[lino as int]
                });
                if lino == lin {
                    assert((xo % 16) as u8 == (x % 16) as u8 && (yo % 16) as u8 == (y % 16) as u8
                        && (zo % 16) as u8 == (z % 16) as u8);
                    assert(xo % 16 == x % 16 && yo % 16 == y % 16 && zo % 16 == z % 16);
                    assert(xo == 16 * (xo / 16) + xo % 16 && x == 16 * (x / 16) + x % 16);
                    assert(zo == 16 * (zo / 16) + zo % 16 && z == 16 * (z / 16) + z % 16);
                    assert(yo == 16 * (yo / 16) + yo % 16 && y == 16 * (y / 16) + y % 16);
                    assert(xo == x && yo == y && zo == z);
                    assert(w_old.spec_block_at(xo, yo, zo) is Some);
                    assert(w_new.spec_block_at(xo, yo, zo) == Some(block));
                } else {
                    assert(!(xo == x && yo == y && zo == z));
                    assert(w_new.spec_block_at(xo, yo, zo) == w_mid.spec_block_at(xo, yo, zo));
                }
            } else {
                assert(w_new.chunks_view()[p].chunk.sections_view()[seco]
                    == w_mid.chunks_view()[p].chunk.sections_view()[seco]);
                assert(!(xo == x && yo == y && zo == z)) by {
                    if xo == x && yo == y && zo == z {
                        assert(p == ci && seco == sec);
                    }
                }
                assert(w_new.spec_block_at(xo, yo, zo) == w_mid.spec_block_at(xo, yo, zo));
            }
        } else {
            assert(!(xo == x && yo == y && zo == z)) by {
                if xo == x && yo == y && zo == z {
                    assert(seco == sec);
                }
            }
            assert(w_new.spec_block_at(xo, yo, zo) is None);
            assert(w_old.spec_block_at(xo, yo, zo) is None);
        }
    } else {
        assert(!(xo == x && yo == y && zo == z));
        assert(!w_new.has_chunk(cxo, czo));
        assert(w_new.spec_block_at(xo, yo, zo) is None);
        assert(w_old.spec_block_at(xo, yo, zo) is None);
    }
}

} // verus!
