//! Voxel world paging: chunk columns keyed by 2D position, run-length
//! chunk sections, batched block edits, and the spiral chunk loader.

pub mod action;
pub mod chunk_section;
pub mod setbatch;

use vstd::prelude::*;

verus! {

/// A block coordinate whose chunk coordinate fits the wire format's
/// 32-bit chunk positions.
pub open spec fn coord_in_range(x: i64) -> bool {
    i32::MIN <= x as int / 16 <= i32::MAX
}

/// Numeric id of the air block state.
pub const BLOCK_AIR: u32 = 0;

/// Linear index of a cell inside a 16x16x16 chunk section:
/// `(dy << 8) | (dz << 4) | dx`.
pub fn in_section_block_linearise(dx: u8, dy: u8, dz: u8) -> (r: u16)
    requires
        dx < 16,
        dy < 16,
        dz < 16,
    ensures
        r == spec_linearise(dx, dy, dz),
        r < 4096,
{
    proof {
        assert(((dy as u16) << 8 | (dz as u16) << 4 | dx as u16) < 4096
            && ((dy as u16) << 8 | (dz as u16) << 4 | dx as u16)
                == ((dy as u16) * 256 + (dz as u16) * 16 + (dx as u16)))
            by (bit_vector)
            requires
                dx < 16 && dy < 16 && dz < 16,
        ;
    }
    (dy as u16) << 8 | (dz as u16) << 4 | (dx as u16)
}

/// The in-section cell offsets packed into a linear index.
pub open spec fn spec_linearise(dx: u8, dy: u8, dz: u8) -> u16 {
    (dy * 256 + dz * 16 + dx) as u16
}

/// Inverse of [`in_section_block_linearise`]: bit-mask extraction of
/// the three axis offsets.
pub fn in_section_block_delinearise(linear_xyz: u16) -> (r: (u8, u8, u8))
    requires
        linear_xyz < 4096,
    ensures
        r == spec_delinearise(linear_xyz),
        r.0 < 16 && r.1 < 16 && r.2 < 16,
{
    proof {
        assert((linear_xyz & 0xf) < 16 && ((linear_xyz >> 8) & 0xf) < 16
            && ((linear_xyz >> 4) & 0xf) < 16
            && (linear_xyz & 0xf) == linear_xyz % 16
            && ((linear_xyz >> 4) & 0xf) == (linear_xyz / 16) % 16
            && ((linear_xyz >> 8) & 0xf) == (linear_xyz / 256) % 16)
            by (bit_vector)
            requires
                linear_xyz < 4096,
        ;
    }
    (
        (linear_xyz & 0xf) as u8,
        ((linear_xyz >> 8) & 0xf) as u8,
        ((linear_xyz >> 4) & 0xf) as u8,
    )
}

/// The three axis offsets encoded by a linear index.
pub open spec fn spec_delinearise(linear_xyz: u16) -> (u8, u8, u8) {
    (
        (linear_xyz % 16) as u8,
        ((linear_xyz / 256) % 16) as u8,
        ((linear_xyz / 16) % 16) as u8,
    )
}

/// Linearise then delinearise gives back the same cell offsets, for
/// every in-range triple.
pub proof fn lemma_linearise_round_trip(dx: u8, dy: u8, dz: u8)
    requires
        dx < 16,
        dy < 16,
        dz < 16,
    ensures
        spec_delinearise(spec_linearise(dx, dy, dz)) == (dx, dy, dz),
        spec_linearise(dx, dy, dz) < 4096,
{
    let lin = spec_linearise(dx, dy, dz);
    assert(lin == dy * 256 + dz * 16 + dx && lin < 4096
        && (lin % 16) as u8 == dx && ((lin / 256) % 16) as u8 == dy
        && ((lin / 16) % 16) as u8 == dz)
        by (bit_vector)
        requires
            dx < 16 && dy < 16 && dz < 16 && lin == (dy * 256 + dz * 16 + dx) as u16,
    ;
}

/// Floor division by 16: negative coordinates round toward negative
/// infinity, as chunk coordinates demand.
pub fn floor_div_16(x: i64) -> (q: i64)
    ensures
        q == x as int / 16,
{
    proof {
        assert(x >> 4 == x / 16) by (bit_vector);
    }
    x >> 4
}

/// Euclidean remainder by 16: the in-chunk offset of a coordinate,
/// always in `[0, 16)`.
pub fn rem_euclid_16(x: i64) -> (r: u8)
    ensures
        r == x as int % 16,
        r < 16,
{
    proof {
        assert((x & 15) == x % 16 && (x & 15) < 16) by (bit_vector);
    }
    (x & 15) as u8
}

/// One straight edge of a spiral ring: `n` steps from `(sx, sz)`,
/// moving by `(dx, dz)` each step.
pub open spec fn spec_edge(sx: int, sz: int, dx: int, dz: int, n: nat) -> Seq<(int, int)> {
    Seq::new(n, |i: int| (sx + i * dx, sz + i * dz))
}

/// The ring of Chebyshev radius `r` around the origin, walked corner
/// by corner: up the west edge, east along the north edge, west along
/// the south edge, down the east edge.
pub open spec fn spec_ring(r: int) -> Seq<(int, int)> {
    spec_edge(-r, -r, 0, 1, (2 * r) as nat) + spec_edge(-r, r, 1, 0, (2 * r) as nat) + spec_edge(
        r,
        -r,
        -1,
        0,
        (2 * r) as nat,
    ) + spec_edge(r, r, 0, -1, (2 * r) as nat)
}

/// The spiral of chunk offsets around the origin: the centre, then
/// each ring of growing radius up to `v`.
pub open spec fn spec_spiral(v: int) -> Seq<(int, int)>
    decreases v,
{
    if v <= 0 {
        seq![(0int, 0int)]
    } else {
        spec_spiral(v - 1) + spec_ring(v)
    }
}

/// Where each position of a ring lies, edge by edge.
pub proof fn lemma_ring_index(r: int, j: int)
    requires
        r >= 1,
        0 <= j < 8 * r,
    ensures
        spec_ring(r).len() == 8 * r,
        0 <= j < 2 * r ==> spec_ring(r)[j] == (-r, -r + j),
        2 * r <= j < 4 * r ==> spec_ring(r)[j] == (-r + (j - 2 * r), r),
        4 * r <= j < 6 * r ==> spec_ring(r)[j] == (r - (j - 4 * r), -r),
        6 * r <= j < 8 * r ==> spec_ring(r)[j] == (r, r - (j - 6 * r)),
{
}

/// A 16 x height x 16 column of block state: one section per 16 cells
/// of height, and a readiness flag flipped once upstream generation
/// has filled the column.
pub struct Chunk {
    sections: Vec<chunk_section::ChunkSection>,
    ready: bool,
}

impl Chunk {
    /// The column's sections, bottom-up.
    pub closed spec fn sections_view(&self) -> Seq<chunk_section::ChunkSection> {
        self.sections@
    }

    /// Whether upstream generation has marked the column ready.
    pub closed spec fn spec_ready(&self) -> bool {
        self.ready
    }

    /// Every section is well-formed.
    pub open spec fn wf(&self) -> bool {
        forall|i: int| 0 <= i < self.sections_view().len()
            ==> (#[trigger] self.sections_view()[i]).wf()
    }

    /// An all-air column of `section_count` sections, not yet ready.
    pub fn new_empty(section_count: u32) -> (r: Self)
        ensures
            r.wf(),
            !r.spec_ready(),
            r.sections_view().len() == section_count,
            forall|i: int| 0 <= i < section_count
                ==> (#[trigger] r.sections_view()[i]).blocks()
                    =~= Seq::new(4096, |q: int| BLOCK_AIR)
                    && r.sections_view()[i].dirty_view() =~= Seq::<u16>::empty(),
    {
        let mut sections: Vec<chunk_section::ChunkSection> = Vec::new();
        let mut i: u32 = 0;
        while i < section_count
            invariant
                i <= section_count,
                sections@.len() == i,
                forall|k: int| 0 <= k < i ==> (#[trigger] sections@[k]).wf()
                    && sections@[k].blocks() =~= Seq::new(4096, |q: int| BLOCK_AIR)
                    && sections@[k].dirty_view() =~= Seq::<u16>::empty(),
            decreases section_count - i,
        {
            sections.push(chunk_section::ChunkSection::empty());
            i = i + 1;
        }
        Chunk { sections, ready: false }
    }
}

/// A loaded chunk together with the 2D position that keys it.
pub struct LoadedChunk {
    /// Chunk x position (block x divided by 16, rounding down).
    pub cx: i32,
    /// Chunk z position (block z divided by 16, rounding down).
    pub cz: i32,
    /// The column itself.
    pub chunk: Chunk,
}

/// Index of the first chunk at the given position, or the sequence's
/// length when no chunk is there.
pub open spec fn find_pos(chunks: Seq<LoadedChunk>, cx: int, cz: int) -> int
    decreases chunks.len(),
{
    if chunks.len() == 0 {
        0
    } else if chunks[0].cx == cx && chunks[0].cz == cz {
        0
    } else {
        1 + find_pos(chunks.drop_first(), cx, cz)
    }
}

/// `find_pos` points at the first chunk with the given position, and
/// past the end when there is none.
pub proof fn lemma_find_pos(chunks: Seq<LoadedChunk>, cx: int, cz: int)
    ensures
        0 <= find_pos(chunks, cx, cz) <= chunks.len(),
        find_pos(chunks, cx, cz) < chunks.len() ==> chunks[find_pos(chunks, cx, cz)].cx == cx
            && chunks[find_pos(chunks, cx, cz)].cz == cz,
        forall|k: int| 0 <= k < find_pos(chunks, cx, cz)
            ==> !((#[trigger] chunks[k]).cx == cx && chunks[k].cz == cz),
    decreases chunks.len(),
{
    if chunks.len() > 0 && !(chunks[0].cx == cx && chunks[0].cz == cz) {
        lemma_find_pos(chunks.drop_first(), cx, cz);
        assert(forall|k: int| 1 <= k < find_pos(chunks, cx, cz)
            ==> chunks[k] == chunks.drop_first()[k - 1]);
    }
}

/// Appending a chunk leaves the index of every already present
/// position unchanged.
pub proof fn lemma_find_pos_push(chunks: Seq<LoadedChunk>, entry: LoadedChunk, cx: int, cz: int)
    ensures
        find_pos(chunks, cx, cz) < chunks.len() ==> find_pos(chunks.push(entry), cx, cz)
            == find_pos(chunks, cx, cz),
        find_pos(chunks, cx, cz) == chunks.len() && entry.cx == cx && entry.cz == cz
            ==> find_pos(chunks.push(entry), cx, cz) == chunks.len(),
        find_pos(chunks, cx, cz) == chunks.len() && !(entry.cx == cx && entry.cz == cz)
            ==> find_pos(chunks.push(entry), cx, cz) == chunks.len() + 1,
    decreases chunks.len(),
{
    lemma_find_pos(chunks, cx, cz);
    let p = chunks.push(entry);
    if chunks.len() == 0 {
        assert(p[0] == entry);
        assert(p.drop_first() =~= Seq::<LoadedChunk>::empty());
        assert(find_pos(p.drop_first(), cx, cz) == 0);
    } else {
        assert(p[0] == chunks[0]);
        if !(chunks[0].cx == cx && chunks[0].cz == cz) {
            assert(p.drop_first() =~= chunks.drop_first().push(entry));
            lemma_find_pos_push(chunks.drop_first(), entry, cx, cz);
        }
    }
}

/// With unique positions, looking up a chunk's own position finds it.
pub proof fn lemma_find_pos_self(chunks: Seq<LoadedChunk>, i: int)
    requires
        0 <= i < chunks.len(),
        forall|a: int, b: int| 0 <= a < b < chunks.len() ==> !((#[trigger] chunks[a]).cx
            == (#[trigger] chunks[b]).cx && chunks[a].cz == chunks[b].cz),
    ensures
        find_pos(chunks, chunks[i].cx as int, chunks[i].cz as int) == i,
{
    lemma_find_pos(chunks, chunks[i].cx as int, chunks[i].cz as int);
    let p = find_pos(chunks, chunks[i].cx as int, chunks[i].cz as int);
    assert(p <= i);
    if p < i {
        assert(!(chunks[p].cx == chunks[i].cx && chunks[p].cz == chunks[i].cz));
    }
}

/// When two worlds agree on chunk count and every position, every
/// lookup agrees too.
pub proof fn lemma_find_pos_same_positions_all(w1: &World, w2: &World)
    requires
        w1.chunks_view().len() == w2.chunks_view().len(),
        forall|i: int| 0 <= i < w1.chunks_view().len() ==> (#[trigger] w1.chunks_view()[i]).cx
            == w2.chunks_view()[i].cx && w1.chunks_view()[i].cz == w2.chunks_view()[i].cz,
    ensures
        forall|cx: int, cz: int| #[trigger] find_pos(w1.chunks_view(), cx, cz) == find_pos(
            w2.chunks_view(),
            cx,
            cz,
        ),
{
    assert forall|cx: int, cz: int| #[trigger] find_pos(w1.chunks_view(), cx, cz) == find_pos(
        w2.chunks_view(),
        cx,
        cz,
    ) by {
        lemma_find_pos_same_positions(w1.chunks_view(), w2.chunks_view(), cx, cz);
    }
}

/// Chunk lookup only reads positions: two chunk lists that agree on
/// every position agree on every lookup.
pub proof fn lemma_find_pos_same_positions(s1: Seq<LoadedChunk>, s2: Seq<LoadedChunk>, cx: int, cz: int)
    requires
        s1.len() == s2.len(),
        forall|i: int| 0 <= i < s1.len() ==> (#[trigger] s1[i]).cx == s2[i].cx && s1[i].cz
            == s2[i].cz,
    ensures
        find_pos(s1, cx, cz) == find_pos(s2, cx, cz),
    decreases s1.len(),
{
    if s1.len() > 0 && !(s1[0].cx == cx && s1[0].cz == cz) {
        assert(forall|i: int| 0 <= i < s1.drop_first().len()
            ==> (#[trigger] s1.drop_first()[i]).cx == s2.drop_first()[i].cx
                && s1.drop_first()[i].cz == s2.drop_first()[i].cz && s1.drop_first()[i]
                == s1[i + 1] && s2.drop_first()[i] == s2[i + 1]);
        lemma_find_pos_same_positions(s1.drop_first(), s2.drop_first(), cx, cz);
    }
}

/// The streamed view of one player's world: the dimension, the loaded
/// chunk columns, and the queues that drive full-chunk sends and
/// readiness notices.
pub struct World {
    dim_id: String,
    height: u32,
    chunks: Vec<LoadedChunk>,
    newly_loaded: Vec<(i32, i32)>,
    ready_chunks: Vec<(i32, i32)>,
}

/// Sections per chunk column for a dimension height: one per 16 cells,
/// at least one.
pub open spec fn spec_section_count(height: u32) -> u32 {
    if height / 16 >= 1 {
        (height / 16) as u32
    } else {
        1u32
    }
}

impl World {
    /// The loaded chunks, in load order.
    pub closed spec fn chunks_view(&self) -> Seq<LoadedChunk> {
        self.chunks@
    }

    /// Positions loaded since the last flush, in load order.
    pub closed spec fn newly_loaded_view(&self) -> Seq<(i32, i32)> {
        self.newly_loaded@
    }

    /// Positions marked ready since the last drain, in mark order.
    pub closed spec fn ready_view(&self) -> Seq<(i32, i32)> {
        self.ready_chunks@
    }

    /// The dimension height this world was created with.
    pub closed spec fn spec_height(&self) -> u32 {
        self.height
    }

    /// The dimension identifier this world was created with.
    pub closed spec fn dim_id_view(&self) -> Seq<char> {
        self.dim_id@
    }

    /// Whether a chunk is loaded at the given position.
    pub open spec fn has_chunk(&self, cx: int, cz: int) -> bool {
        find_pos(self.chunks_view(), cx, cz) < self.chunks_view().len()
    }

    /// The chunk at a loaded position.
    pub open spec fn chunk_at(&self, cx: int, cz: int) -> Chunk {
        self.chunks_view()[find_pos(self.chunks_view(), cx, cz)].chunk
    }

    /// Structural invariant: chunk positions are unique, every column
    /// has the dimension's section count of well-formed sections, and
    /// the newly-loaded queue lists distinct, loaded positions.
    pub open spec fn wf(&self) -> bool {
        &&& forall|i: int, j: int| 0 <= i < j < self.chunks_view().len()
            ==> !((#[trigger] self.chunks_view()[i]).cx == (#[trigger] self.chunks_view()[j]).cx
                && self.chunks_view()[i].cz == self.chunks_view()[j].cz)
        &&& forall|i: int| 0 <= i < self.chunks_view().len()
            ==> (#[trigger] self.chunks_view()[i]).chunk.wf()
                && self.chunks_view()[i].chunk.sections_view().len()
                    == spec_section_count(self.spec_height())
        &&& forall|k: int| 0 <= k < self.newly_loaded_view().len()
            ==> self.has_chunk(
                (#[trigger] self.newly_loaded_view()[k]).0 as int,
                self.newly_loaded_view()[k].1 as int,
            )
        &&& forall|i: int, j: int| 0 <= i < j < self.newly_loaded_view().len()
            ==> #[trigger] self.newly_loaded_view()[i] != #[trigger] self.newly_loaded_view()[j]
    }

    /// An empty world for a dimension: no chunks loaded, no queues.
    pub fn new(dim_id: String, height: u32) -> (r: Self)
        ensures
            r.wf(),
            r.chunks_view() =~= Seq::<LoadedChunk>::empty(),
            r.newly_loaded_view() =~= Seq::<(i32, i32)>::empty(),
            r.ready_view() =~= Seq::<(i32, i32)>::empty(),
            r.spec_height() == height,
            r.dim_id_view() == dim_id@,
    {
        World {
            dim_id,
            height,
            chunks: Vec::new(),
            newly_loaded: Vec::new(),
            ready_chunks: Vec::new(),
        }
    }

    /// The dimension identifier, for packet construction outside the
    /// library.
    pub fn dim_id(&self) -> (r: &String)
        ensures
            r@ == self.dim_id_view(),
    {
        &self.dim_id
    }

    /// How many chunks are loaded.
    pub fn chunk_count(&self) -> (r: usize)
        ensures
            r == self.chunks_view().len(),
    {
        self.chunks.len()
    }

    /// How many sections the chunk at a list index has.
    pub(crate) fn section_count_at(&self, ci: usize) -> (r: usize)
        requires
            ci < self.chunks_view().len(),
        ensures
            r == self.chunks_view()[ci as int].chunk.sections_view().len(),
    {
        self.chunks[ci].chunk.sections.len()
    }

    /// Index of the chunk at a position, or the chunk count when the
    /// position is not loaded.
    pub(crate) fn find_chunk(&self, cx: i32, cz: i32) -> (r: usize)
        ensures
            r == find_pos(self.chunks_view(), cx as int, cz as int),
    {
        proof {
            lemma_find_pos(self.chunks@, cx as int, cz as int);
        }
        let mut i: usize = 0;
        while i < self.chunks.len()
            invariant
                i <= self.chunks@.len(),
                forall|k: int| 0 <= k < i
                    ==> !((#[trigger] self.chunks@[k]).cx == cx && self.chunks@[k].cz == cz),
                find_pos(self.chunks@, cx as int, cz as int) >= i,
            decreases self.chunks@.len() - i,
        {
            let entry = &self.chunks[i];
            if entry.cx == cx && entry.cz == cz {
                proof {
                    lemma_find_pos(self.chunks@, cx as int, cz as int);
                }
                return i;
            }
            i = i + 1;
            proof {
                lemma_find_pos(self.chunks@, cx as int, cz as int);
                if find_pos(self.chunks@, cx as int, cz as int) < i {
                    assert(false);
                }
            }
        }
        i
    }

    /// Whether a chunk is loaded at the given position.
    pub fn is_chunk_loaded(&self, cx: i32, cz: i32) -> (r: bool)
        ensures
            r == self.has_chunk(cx as int, cz as int),
    {
        self.find_chunk(cx, cz) < self.chunks.len()
    }

    /// Load an all-air chunk at a position not yet loaded and queue it
    /// for a full send; a position already loaded is left alone. Says
    /// whether the chunk was loaded now.
    pub fn try_load_chunk(&mut self, cx: i32, cz: i32) -> (loaded: bool)
        requires
            old(self).wf(),
        ensures
            final(self).wf(),
            loaded == !old(self).has_chunk(cx as int, cz as int),
            final(self).has_chunk(cx as int, cz as int),
            final(self).spec_height() == old(self).spec_height(),
            final(self).dim_id_view() == old(self).dim_id_view(),
            final(self).ready_view() == old(self).ready_view(),
            !loaded ==> final(self).chunks_view() == old(self).chunks_view()
                && final(self).newly_loaded_view() == old(self).newly_loaded_view(),
            loaded ==> final(self).chunks_view().len() == old(self).chunks_view().len() + 1
                && final(self).chunks_view().take(old(self).chunks_view().len() as int)
                    =~= old(self).chunks_view()
                && final(self).chunks_view().last().cx == cx
                && final(self).chunks_view().last().cz == cz
                && final(self).chunks_view().last().chunk.sections_view().len()
                    == spec_section_count(old(self).spec_height())
                && !final(self).chunks_view().last().chunk.spec_ready()
                && fresh_air_chunk(
                final(self).chunks_view().last().chunk,
                spec_section_count(old(self).spec_height()) as int,
            ) && final(self).newly_loaded_view()
                    =~= old(self).newly_loaded_view().push((cx, cz)),
    {
        let idx = self.find_chunk(cx, cz);
        if idx < self.chunks.len() {
            proof {
                lemma_find_pos(self.chunks@, cx as int, cz as int);
            }
            return false;
        }
        let section_count = if self.height / 16 >= 1 {
            self.height / 16
        } else {
            1
        };
        let chunk = Chunk::new_empty(section_count);
        self.chunks.push(LoadedChunk { cx, cz, chunk });
        self.newly_loaded.push((cx, cz));
        proof {
            let oldc = old(self).chunks@;
            let newc = self.chunks@;
            lemma_find_pos(oldc, cx as int, cz as int);
            lemma_find_pos_push(oldc, newc.last(), cx as int, cz as int);
            assert(newc.take(oldc.len() as int) =~= oldc);
            // Uniqueness and the newly-loaded queue survive the push.
            assert forall|a: int, b: int| 0 <= a < b < newc.len()
                implies !((#[trigger] newc[a]).cx == (#[trigger] newc[b]).cx
                    && newc[a].cz == newc[b].cz) by {
                if b < newc.len() - 1 {
                    assert(newc[a] == oldc[a] && newc[b] == oldc[b]);
                } else {
                    assert(newc[a] == oldc[a]);
                }
            }
            assert forall|k: int| 0 <= k < self.newly_loaded@.len()
                implies self.has_chunk(
                    (#[trigger] self.newly_loaded@[k]).0 as int,
                    self.newly_loaded@[k].1 as int,
                ) by {
                let p = self.newly_loaded@[k];
                lemma_find_pos(oldc, p.0 as int, p.1 as int);
                lemma_find_pos_push(oldc, newc.last(), p.0 as int, p.1 as int);
                if k < self.newly_loaded@.len() - 1 {
                    assert(old(self).newly_loaded_view()[k] == p);
                    assert(old(self).has_chunk(p.0 as int, p.1 as int));
                }
            }
            assert forall|a: int, b: int| 0 <= a < b < self.newly_loaded@.len()
                implies #[trigger] self.newly_loaded@[a] != #[trigger] self.newly_loaded@[b] by {
                if b == self.newly_loaded@.len() - 1 {
                    let p = self.newly_loaded@[a];
                    assert(old(self).newly_loaded_view()[a] == p);
                    if p == (cx, cz) {
                        assert(old(self).has_chunk(cx as int, cz as int));
                        assert(false);
                    }
                } else {
                    assert(old(self).newly_loaded_view()[a] == self.newly_loaded@[a]);
                    assert(old(self).newly_loaded_view()[b] == self.newly_loaded@[b]);
                }
            }
        }
        true
    }

    /// Every section of every chunk is in canonical run-length form.
    /// Batched edits suspend this between the first write and the
    /// closing collapse; everything else preserves it.
    pub open spec fn canonical(&self) -> bool {
        forall|i: int, s: int| 0 <= i < self.chunks_view().len() && 0 <= s < self.chunks_view()[i]
            .chunk.sections_view().len() ==> chunk_section::collapsed(
            #[trigger] self.chunks_view()[i].chunk.sections_view()[s].runs_view(),
        )
    }

    /// The block a world holds at an absolute position: the cell of
    /// the section the coordinates select, or nothing where no chunk
    /// or section is loaded.
    pub open spec fn spec_block_at(&self, x: int, y: int, z: int) -> Option<u32> {
        let cx = x / 16;
        let cz = z / 16;
        let sec = y / 16;
        if self.has_chunk(cx, cz) && 0 <= sec < self.chunk_at(cx, cz).sections_view().len() {
            Some(
                self.chunk_at(cx, cz).sections_view()[sec].blocks()[spec_linearise(
                    (x % 16) as u8,
                    (y % 16) as u8,
                    (z % 16) as u8,
                ) as int],
            )
        } else {
            None
        }
    }

    /// The block at an absolute position, or `None` where no chunk or
    /// section is loaded there.
    pub fn get_block(&self, x: i64, y: u16, z: i64) -> (r: Option<u32>)
        requires
            self.wf(),
            -0x8000_0000_0000_0000 + 16 <= x,
            -0x8000_0000_0000_0000 + 16 <= z,
            x as int / 16 <= i32::MAX,
            i32::MIN <= x as int / 16,
            z as int / 16 <= i32::MAX,
            i32::MIN <= z as int / 16,
        ensures
            r == self.spec_block_at(x as int, y as int, z as int),
    {
        let cx = floor_div_16(x) as i32;
        let cz = floor_div_16(z) as i32;
        let sec = (y / 16) as usize;
        let dx = rem_euclid_16(x);
        let dy = (y % 16) as u8;
        let dz = rem_euclid_16(z);
        let ci = self.find_chunk(cx, cz);
        proof {
            lemma_find_pos(self.chunks@, cx as int, cz as int);
        }
        if ci >= self.chunks.len() {
            return None;
        }
        let chunk = &self.chunks[ci].chunk;
        if sec >= chunk.sections.len() {
            return None;
        }
        let lin = in_section_block_linearise(dx, dy, dz);
        Some(chunk.sections[sec].get(lin))
    }

    /// True when the two worlds differ at most in the one named
    /// section (and that chunk's readiness is untouched too).
    pub open spec fn same_except_section(&self, other: &World, ci: int, si: int) -> bool {
        &&& self.chunks_view().len() == other.chunks_view().len()
        &&& self.newly_loaded_view() == other.newly_loaded_view()
        &&& self.ready_view() == other.ready_view()
        &&& self.spec_height() == other.spec_height()
        &&& self.dim_id_view() == other.dim_id_view()
        &&& forall|i: int| 0 <= i < self.chunks_view().len()
            ==> (#[trigger] self.chunks_view()[i]).cx == other.chunks_view()[i].cx
                && self.chunks_view()[i].cz == other.chunks_view()[i].cz
                && self.chunks_view()[i].chunk.spec_ready() == other.chunks_view()[i].chunk
                .spec_ready() && self.chunks_view()[i].chunk.sections_view().len()
                == other.chunks_view()[i].chunk.sections_view().len()
        &&& forall|i: int, s: int| 0 <= i < self.chunks_view().len() && 0 <= s < self
            .chunks_view()[i].chunk.sections_view().len() && !(i == ci && s == si)
            ==> #[trigger] self.chunks_view()[i].chunk.sections_view()[s]
                == other.chunks_view()[i].chunk.sections_view()[s]
    }

    /// Split one section out into unit runs, in place. Only that
    /// section's run list changes; its blocks do not.
    pub(crate) fn section_split(&mut self, ci: usize, si: usize)
        requires
            old(self).wf(),
            ci < old(self).chunks_view().len(),
            si < old(self).chunks_view()[ci as int].chunk.sections_view().len(),
        ensures
            final(self).wf(),
            final(self).same_except_section(old(self), ci as int, si as int),
            ({
                let s_new = final(self).chunks_view()[ci as int].chunk.sections_view()[si as int];
                let s_old = old(self).chunks_view()[ci as int].chunk.sections_view()[si as int];
                &&& s_new.blocks() =~= s_old.blocks()
                &&& s_new.dirty_view() == s_old.dirty_view()
                &&& s_new.runs_view().len() == 4096
                &&& forall|j: int| 0 <= j < 4096 ==> (#[trigger] s_new.runs_view()[j]) == (
                    1u16,
                    s_old.blocks()[j],
                )
            }),
        ({
            forall|cx: int, cz: int| #[trigger] find_pos(final(self).chunks_view(), cx, cz)
                == find_pos(old(self).chunks_view(), cx, cz)
        }),
    {
        let section = &mut self.chunks[ci].chunk.sections[si];
        section.split_out_all();
        proof {
            assert forall|i: int| 0 <= i < self.chunks_view().len()
                implies (#[trigger] self.chunks_view()[i]).chunk.wf() && self.chunks_view()[i]
                .chunk.sections_view().len() == spec_section_count(self.spec_height()) by {
                if i == ci as int {
                    let c_new = self.chunks_view()[i].chunk;
                    let c_old = old(self).chunks_view()[i].chunk;
                    assert(c_new.sections_view().len() == c_old.sections_view().len());
                    assert forall|s: int| 0 <= s < c_new.sections_view().len()
                        implies (#[trigger] c_new.sections_view()[s]).wf() by {
                        if s != si as int {
                            assert(c_new.sections_view()[s] == c_old.sections_view()[s]);
                        }
                    }
                }
            }
            self.lemma_wf_preserved(old(self));
        }
    }

    /// Overwrite one cell of a section already split into unit runs,
    /// and mark it dirty.
    pub(crate) fn section_overwrite(&mut self, ci: usize, si: usize, linear_xyz: u16, block: u32)
        requires
            old(self).wf(),
            ci < old(self).chunks_view().len(),
            si < old(self).chunks_view()[ci as int].chunk.sections_view().len(),
            linear_xyz < 4096,
            forall|j: int| 0 <= j < old(self).chunks_view()[ci as int].chunk.sections_view()[
                si as int
            ].runs_view().len() ==> (#[trigger] old(self).chunks_view()[ci as int].chunk
                .sections_view()[si as int].runs_view()[j]).0 == 1,
            old(self).chunks_view()[ci as int].chunk.sections_view()[si as int].runs_view().len()
                == 4096,
        ensures
            final(self).wf(),
            final(self).same_except_section(old(self), ci as int, si as int),
            ({
                let s_new = final(self).chunks_view()[ci as int].chunk.sections_view()[si as int];
                let s_old = old(self).chunks_view()[ci as int].chunk.sections_view()[si as int];
                &&& s_new.blocks() =~= s_old.blocks().update(linear_xyz as int, block)
                &&& s_new.runs_view().len() == 4096
                &&& (forall|j: int| 0 <= j < 4096 ==> (#[trigger] s_new.runs_view()[j]).0 == 1)
                &&& (forall|v: u16| s_new.dirty_view().contains(v) <==> s_old.dirty_view()
                    .contains(v) || v == linear_xyz)
            }),
        ({
            forall|cx: int, cz: int| #[trigger] find_pos(final(self).chunks_view(), cx, cz)
                == find_pos(old(self).chunks_view(), cx, cz)
        }),
    {
        let section = &mut self.chunks[ci].chunk.sections[si];
        section.overwrite_run_state(linear_xyz, block);
        proof {
            assert forall|i: int| 0 <= i < self.chunks_view().len()
                implies (#[trigger] self.chunks_view()[i]).chunk.wf() && self.chunks_view()[i]
                .chunk.sections_view().len() == spec_section_count(self.spec_height()) by {
                if i == ci as int {
                    let c_new = self.chunks_view()[i].chunk;
                    let c_old = old(self).chunks_view()[i].chunk;
                    assert(c_new.sections_view().len() == c_old.sections_view().len());
                    assert forall|s: int| 0 <= s < c_new.sections_view().len()
                        implies (#[trigger] c_new.sections_view()[s]).wf() by {
                        if s != si as int {
                            assert(c_new.sections_view()[s] == c_old.sections_view()[s]);
                        }
                    }
                }
            }
            self.lemma_wf_preserved(old(self));
        }
    }

    /// Collapse one section back into canonical run-length form.
    pub(crate) fn section_collapse(&mut self, ci: usize, si: usize)
        requires
            old(self).wf(),
            ci < old(self).chunks_view().len(),
            si < old(self).chunks_view()[ci as int].chunk.sections_view().len(),
        ensures
            final(self).wf(),
            final(self).same_except_section(old(self), ci as int, si as int),
            ({
                let s_new = final(self).chunks_view()[ci as int].chunk.sections_view()[si as int];
                let s_old = old(self).chunks_view()[ci as int].chunk.sections_view()[si as int];
                &&& s_new.blocks() =~= s_old.blocks()
                &&& s_new.dirty_view() == s_old.dirty_view()
                &&& chunk_section::collapsed(s_new.runs_view())
            }),
        ({
            forall|cx: int, cz: int| #[trigger] find_pos(final(self).chunks_view(), cx, cz)
                == find_pos(old(self).chunks_view(), cx, cz)
        }),
    {
        let section = &mut self.chunks[ci].chunk.sections[si];
        section.collapse();
        proof {
            assert forall|i: int| 0 <= i < self.chunks_view().len()
                implies (#[trigger] self.chunks_view()[i]).chunk.wf() && self.chunks_view()[i]
                .chunk.sections_view().len() == spec_section_count(self.spec_height()) by {
                if i == ci as int {
                    let c_new = self.chunks_view()[i].chunk;
                    let c_old = old(self).chunks_view()[i].chunk;
                    assert(c_new.sections_view().len() == c_old.sections_view().len());
                    assert forall|s: int| 0 <= s < c_new.sections_view().len()
                        implies (#[trigger] c_new.sections_view()[s]).wf() by {
                        if s != si as int {
                            assert(c_new.sections_view()[s] == c_old.sections_view()[s]);
                        }
                    }
                }
            }
            self.lemma_wf_preserved(old(self));
        }
    }

    /// When chunk positions, counts and queues are unchanged and every
    /// column stays well-formed, the world invariant and every lookup
    /// carry over.
    proof fn lemma_wf_preserved(&self, prior: &World)
        requires
            prior.wf(),
            self.chunks_view().len() == prior.chunks_view().len(),
            forall|i: int| 0 <= i < self.chunks_view().len()
                ==> (#[trigger] self.chunks_view()[i]).cx == prior.chunks_view()[i].cx
                    && self.chunks_view()[i].cz == prior.chunks_view()[i].cz,
            self.newly_loaded_view() == prior.newly_loaded_view() || self.newly_loaded_view().len()
                == 0,
            self.spec_height() == prior.spec_height(),
            forall|i: int| 0 <= i < self.chunks_view().len()
                ==> (#[trigger] self.chunks_view()[i]).chunk.wf() && self.chunks_view()[i].chunk
                    .sections_view().len() == spec_section_count(self.spec_height()),
        ensures
            self.wf(),
            forall|cx: int, cz: int| #[trigger] find_pos(self.chunks_view(), cx, cz) == find_pos(
                prior.chunks_view(),
                cx,
                cz,
            ),
    {
        assert forall|cx: int, cz: int| #[trigger] find_pos(self.chunks_view(), cx, cz)
            == find_pos(prior.chunks_view(), cx, cz) by {
            lemma_find_pos_same_positions(self.chunks_view(), prior.chunks_view(), cx, cz);
        }
        if self.newly_loaded_view().len() > 0 {
            assert forall|k: int| 0 <= k < self.newly_loaded_view().len() implies self.has_chunk(
                (#[trigger] self.newly_loaded_view()[k]).0 as int,
                self.newly_loaded_view()[k].1 as int,
            ) by {
                assert(prior.newly_loaded_view()[k] == self.newly_loaded_view()[k]);
            }
            assert forall|i: int, j: int| 0 <= i < j < self.newly_loaded_view().len()
                implies #[trigger] self.newly_loaded_view()[i]
                    != #[trigger] self.newly_loaded_view()[j] by {
                assert(prior.newly_loaded_view()[i] == self.newly_loaded_view()[i]);
                assert(prior.newly_loaded_view()[j] == self.newly_loaded_view()[j]);
            }
        }
    }
}


/// Marker: the player is in a world and receives chunk traffic.
pub struct PlayerInWorld;

/// The chunk the streamed view is centred on, with a dirty flag that
/// drives the cache-centre packet.
pub struct ChunkCentre {
    centre: (i32, i32),
    dirty: bool,
}

impl ChunkCentre {
    /// The centre position.
    pub closed spec fn centre_view(&self) -> (i32, i32) {
        self.centre
    }

    /// Whether a cache-centre packet is owed.
    pub closed spec fn spec_dirty(&self) -> bool {
        self.dirty
    }

    /// A centre that owes its first packet.
    pub fn new_dirty(cx: i32, cz: i32) -> (r: Self)
        ensures
            r.centre_view() == (cx, cz),
            r.spec_dirty(),
    {
        ChunkCentre { centre: (cx, cz), dirty: true }
    }

    /// Move the centre and mark it dirty.
    pub fn set(&mut self, cx: i32, cz: i32)
        ensures
            final(self).centre_view() == (cx, cz),
            final(self).spec_dirty(),
    {
        self.centre = (cx, cz);
        self.dirty = true;
    }

    /// The centre position.
    pub fn get(&self) -> (r: (i32, i32))
        ensures
            r == self.centre_view(),
    {
        self.centre
    }

    /// Take the dirty flag: the owed cache-centre position, if any,
    /// and the flag cleared.
    pub fn take_dirty(&mut self) -> (r: Option<(i32, i32)>)
        ensures
            !final(self).spec_dirty(),
            final(self).centre_view() == old(self).centre_view(),
            r == (if old(self).spec_dirty() {
                Some(old(self).centre_view())
            } else {
                Option::<(i32, i32)>::None
            }),
    {
        if self.dirty {
            self.dirty = false;
            Some(self.centre)
        } else {
            None
        }
    }
}

/// The negotiated view distance, ordered by packet stamp so an
/// out-of-order client-information packet cannot regress it, with a
/// dirty flag that drives the cache-radius packet.
pub struct ViewDistance {
    value: u8,
    stamp: u128,
    dirty: bool,
}

impl ViewDistance {
    /// The current view distance, always at least one.
    pub closed spec fn value_view(&self) -> u8 {
        self.value
    }

    /// The stamp of the update that set the current value.
    pub closed spec fn stamp_view(&self) -> u128 {
        self.stamp
    }

    /// Whether a cache-radius packet is owed.
    pub closed spec fn spec_dirty(&self) -> bool {
        self.dirty
    }

    /// A view distance is always at least one chunk.
    pub open spec fn wf(&self) -> bool {
        self.value_view() >= 1
    }

    /// The minimum view distance, owing its first packet.
    pub fn new_min() -> (r: Self)
        ensures
            r.wf(),
            r.value_view() == 1,
            r.stamp_view() == 0,
            r.spec_dirty(),
    {
        ViewDistance { value: 1, stamp: 0, dirty: true }
    }

    /// Apply a client-requested view distance stamped with its packet
    /// index, clamped to the configured maximum. Only an update
    /// stamped later than the current value takes effect; a zero
    /// request is ignored, as zero encodes no distance at all.
    pub fn apply_update(&mut self, requested: u8, max: u8, stamp: u128)
        requires
            old(self).wf(),
            max >= 1,
        ensures
            final(self).wf(),
            ({
                let effective: u8 = if requested <= max {
                    requested
                } else {
                    max
                };
                if requested >= 1 && stamp > old(self).stamp_view() {
                    &&& final(self).value_view() == effective
                    &&& final(self).stamp_view() == stamp
                    &&& final(self).spec_dirty()
                } else {
                    *final(self) == *old(self)
                }
            }),
    {
        if requested == 0 {
            return;
        }
        if stamp <= self.stamp {
            return;
        }
        let effective = if requested <= max {
            requested
        } else {
            max
        };
        self.value = effective;
        self.stamp = stamp;
        self.dirty = true;
    }

    /// The current view distance.
    pub fn get(&self) -> (r: u8)
        ensures
            r == self.value_view(),
    {
        self.value
    }

    /// Take the dirty flag: the owed cache-radius value, if any, and
    /// the flag cleared.
    pub fn take_dirty(&mut self) -> (r: Option<u8>)
        ensures
            !final(self).spec_dirty(),
            final(self).value_view() == old(self).value_view(),
            final(self).stamp_view() == old(self).stamp_view(),
            r == (if old(self).spec_dirty() {
                Some(old(self).value_view())
            } else {
                Option::<u8>::None
            }),
    {
        if self.dirty {
            self.dirty = false;
            Some(self.value)
        } else {
            None
        }
    }
}

/// A full chunk ready to be sent: its position and the serialised
/// form of each section, bottom-up.
pub struct ChunkPayload {
    /// Chunk x position.
    pub cx: i32,
    /// Chunk z position.
    pub cz: i32,
    /// One encoding per section.
    pub sections: Vec<chunk_section::SectionEncoding>,
}

impl World {
    /// Mark the chunk at a position ready and queue it on the ready
    /// list, unless it is absent or already ready. Says whether the
    /// flag flipped now.
    pub fn mark_ready(&mut self, cx: i32, cz: i32) -> (became: bool)
        requires
            old(self).wf(),
        ensures
            final(self).wf(),
            became == (old(self).has_chunk(cx as int, cz as int) && !old(self).chunk_at(
                cx as int,
                cz as int,
            ).spec_ready()),
            final(self).chunks_view().len() == old(self).chunks_view().len(),
            final(self).newly_loaded_view() == old(self).newly_loaded_view(),
            final(self).spec_height() == old(self).spec_height(),
            final(self).dim_id_view() == old(self).dim_id_view(),
            forall|i: int| 0 <= i < final(self).chunks_view().len()
                ==> (#[trigger] final(self).chunks_view()[i]).cx == old(self).chunks_view()[i].cx
                    && final(self).chunks_view()[i].cz == old(self).chunks_view()[i].cz
                    && final(self).chunks_view()[i].chunk.sections_view()
                    == old(self).chunks_view()[i].chunk.sections_view(),
            !became ==> final(self).chunks_view() == old(self).chunks_view()
                && final(self).ready_view() == old(self).ready_view(),
            became ==> final(self).ready_view() =~= old(self).ready_view().push((cx, cz))
                && final(self).chunk_at(cx as int, cz as int).spec_ready()
                && (forall|i: int| 0 <= i < final(self).chunks_view().len() && i != find_pos(
                old(self).chunks_view(),
                cx as int,
                cz as int,
            ) ==> (#[trigger] final(self).chunks_view()[i]).chunk.spec_ready()
                    == old(self).chunks_view()[i].chunk.spec_ready()),
    {
        let ci = self.find_chunk(cx, cz);
        proof {
            lemma_find_pos(self.chunks@, cx as int, cz as int);
        }
        if ci >= self.chunks.len() {
            return false;
        }
        if self.chunks[ci].chunk.ready {
            return false;
        }
        self.chunks[ci].chunk.ready = true;
        self.ready_chunks.push((cx, cz));
        proof {
            assert forall|i: int| 0 <= i < self.chunks@.len()
                implies (#[trigger] self.chunks_view()[i]).cx == old(self).chunks_view()[i].cx
                    && self.chunks_view()[i].cz == old(self).chunks_view()[i].cz
                    && self.chunks_view()[i].chunk.wf() && self.chunks_view()[i].chunk
                    .sections_view().len() == spec_section_count(self.spec_height()) by {
                if i != ci as int {
                    assert(self.chunks_view()[i] == old(self).chunks_view()[i]);
                }
            }
            self.lemma_wf_preserved(old(self));
        }
        true
    }

    /// Hand over the positions marked ready since the last drain, in
    /// mark order, and empty the queue.
    pub fn take_ready(&mut self) -> (r: Vec<(i32, i32)>)
        requires
            old(self).wf(),
        ensures
            final(self).wf(),
            r@ == old(self).ready_view(),
            final(self).ready_view() =~= Seq::<(i32, i32)>::empty(),
            final(self).chunks_view() == old(self).chunks_view(),
            final(self).newly_loaded_view() == old(self).newly_loaded_view(),
            final(self).spec_height() == old(self).spec_height(),
            final(self).dim_id_view() == old(self).dim_id_view(),
    {
        let mut drained: Vec<(i32, i32)> = Vec::new();
        std::mem::swap(&mut drained, &mut self.ready_chunks);
        proof {
            self.lemma_wf_preserved(old(self));
        }
        drained
    }

    /// The serialised form of every section of the chunk at a list
    /// index, bottom-up.
    fn chunk_payload_sections(&self, ci: usize) -> (r: Vec<chunk_section::SectionEncoding>)
        requires
            self.wf(),
            ci < self.chunks_view().len(),
        ensures
            r@.len() == self.chunks_view()[ci as int].chunk.sections_view().len(),
            forall|j: int| 0 <= j < r@.len() ==> chunk_section::encoding_matches(
                #[trigger] r@[j],
                self.chunks_view()[ci as int].chunk.sections_view()[j].runs_view(),
                self.chunks_view()[ci as int].chunk.sections_view()[j].blocks(),
            ),
    {
        let mut out: Vec<chunk_section::SectionEncoding> = Vec::new();
        let mut j: usize = 0;
        let n = self.chunks[ci].chunk.sections.len();
        while j < n
            invariant
                self.wf(),
                ci < self.chunks_view().len(),
                n == self.chunks_view()[ci as int].chunk.sections_view().len(),
                j <= n,
                out@.len() == j,
                forall|q: int| 0 <= q < j ==> chunk_section::encoding_matches(
                    #[trigger] out@[q],
                    self.chunks_view()[ci as int].chunk.sections_view()[q].runs_view(),
                    self.chunks_view()[ci as int].chunk.sections_view()[q].blocks(),
                ),
            decreases n - j,
        {
            let enc = self.chunks[ci].chunk.sections[j].encoding();
            out.push(enc);
            j = j + 1;
        }
        out
    }

    /// Clear the dirty set of every section of the chunk at a list
    /// index. Nothing else changes.
    fn clear_chunk_dirty(&mut self, ci: usize)
        requires
            old(self).wf(),
            ci < old(self).chunks_view().len(),
        ensures
            final(self).wf(),
            final(self).chunks_view().len() == old(self).chunks_view().len(),
            final(self).newly_loaded_view() == old(self).newly_loaded_view(),
            final(self).ready_view() == old(self).ready_view(),
            final(self).spec_height() == old(self).spec_height(),
            final(self).dim_id_view() == old(self).dim_id_view(),
            forall|i: int| 0 <= i < final(self).chunks_view().len()
                ==> (#[trigger] final(self).chunks_view()[i]).cx == old(self).chunks_view()[i].cx
                    && final(self).chunks_view()[i].cz == old(self).chunks_view()[i].cz
                    && final(self).chunks_view()[i].chunk.spec_ready() == old(self).chunks_view()[
                    i
                ].chunk.spec_ready() && final(self).chunks_view()[i].chunk.sections_view().len()
                    == old(self).chunks_view()[i].chunk.sections_view().len(),
            forall|i: int, s: int| 0 <= i < final(self).chunks_view().len()
                && 0 <= s < final(self).chunks_view()[i].chunk.sections_view().len()
                ==> (#[trigger] final(self).chunks_view()[i].chunk.sections_view()[s]).runs_view()
                    == old(self).chunks_view()[i].chunk.sections_view()[s].runs_view(),
            forall|i: int, s: int| 0 <= i < final(self).chunks_view().len()
                && 0 <= s < final(self).chunks_view()[i].chunk.sections_view().len()
                ==> (#[trigger] final(self).chunks_view()[i].chunk.sections_view()[s]).dirty_view()
                    == (if i == ci as int {
                    Seq::<u16>::empty()
                } else {
                    old(self).chunks_view()[i].chunk.sections_view()[s].dirty_view()
                }),
            forall|i: int| 0 <= i < final(self).chunks_view().len() && i != ci as int
                ==> #[trigger] final(self).chunks_view()[i] == old(self).chunks_view()[i],
    {
        let n = self.chunks[ci].chunk.sections.len();
        let mut j: usize = 0;
        while j < n
            invariant
                self.wf(),
                ci < self.chunks_view().len(),
                n == self.chunks_view()[ci as int].chunk.sections_view().len(),
                j <= n,
                self.chunks_view().len() == old(self).chunks_view().len(),
                self.newly_loaded_view() == old(self).newly_loaded_view(),
                self.ready_view() == old(self).ready_view(),
                self.spec_height() == old(self).spec_height(),
                self.dim_id_view() == old(self).dim_id_view(),
                forall|i: int| 0 <= i < self.chunks_view().len()
                    ==> (#[trigger] self.chunks_view()[i]).cx == old(self).chunks_view()[i].cx
                        && self.chunks_view()[i].cz == old(self).chunks_view()[i].cz
                        && self.chunks_view()[i].chunk.spec_ready() == old(self).chunks_view()[
                        i
                    ].chunk.spec_ready() && self.chunks_view()[i].chunk.sections_view().len()
                        == old(self).chunks_view()[i].chunk.sections_view().len(),
                forall|i: int, s: int| 0 <= i < self.chunks_view().len() && 0 <= s
                    < self.chunks_view()[i].chunk.sections_view().len()
                    ==> (#[trigger] self.chunks_view()[i].chunk.sections_view()[s]).runs_view()
                        == old(self).chunks_view()[i].chunk.sections_view()[s].runs_view(),
                forall|i: int, s: int| 0 <= i < self.chunks_view().len() && 0 <= s
                    < self.chunks_view()[i].chunk.sections_view().len()
                    ==> (#[trigger] self.chunks_view()[i].chunk.sections_view()[s]).dirty_view()
                        == (if i == ci as int && s < j {
                        Seq::<u16>::empty()
                    } else {
                        old(self).chunks_view()[i].chunk.sections_view()[s].dirty_view()
                    }),
                forall|i: int| 0 <= i < self.chunks_view().len() && i != ci as int
                    ==> #[trigger] self.chunks_view()[i] == old(self).chunks_view()[i],
            decreases n - j,
        {
            let ghost prev = *self;
            self.chunks[ci].chunk.sections[j].clear_dirty();
            j = j + 1;
            proof {
                assert forall|i: int| 0 <= i < self.chunks_view().len()
                    implies (#[trigger] self.chunks_view()[i]).chunk.wf()
                        && self.chunks_view()[i].chunk.sections_view().len()
                        == spec_section_count(self.spec_height()) by {
                    if i == ci as int {
                        assert forall|s: int| 0 <= s
                            < self.chunks_view()[i].chunk.sections_view().len()
                            implies (#[trigger] self.chunks_view()[i].chunk.sections_view()[
                            s
                        ]).wf() by {
                            if s != j - 1 {
                                assert(self.chunks_view()[i].chunk.sections_view()[s]
                                    == prev.chunks_view()[i].chunk.sections_view()[s]);
                            }
                        }
                    }
                }
                self.lemma_wf_preserved(&prev);
            }
        }
    }
}

/// Whether one of the first `k` queued positions is the given one.
pub open spec fn pos_in_prefix(queue: Seq<(i32, i32)>, k: int, cx: int, cz: int) -> bool {
    exists|t: int| 0 <= t < k && #[trigger] queue[t] == (cx as i32, cz as i32)
}

impl World {
    /// Take every chunk queued since the last flush and serialise it
    /// for a full send, clearing its sections' dirty sets: a freshly
    /// sent chunk owes no differential update. Payloads come in queue
    /// order.
    pub fn flush_newly_loaded(&mut self) -> (r: Vec<ChunkPayload>)
        requires
            old(self).wf(),
        ensures
            final(self).wf(),
            final(self).newly_loaded_view() =~= Seq::<(i32, i32)>::empty(),
            final(self).ready_view() == old(self).ready_view(),
            final(self).spec_height() == old(self).spec_height(),
            final(self).dim_id_view() == old(self).dim_id_view(),
            final(self).chunks_view().len() == old(self).chunks_view().len(),
            forall|i: int| 0 <= i < final(self).chunks_view().len()
                ==> (#[trigger] final(self).chunks_view()[i]).cx == old(self).chunks_view()[i].cx
                    && final(self).chunks_view()[i].cz == old(self).chunks_view()[i].cz
                    && final(self).chunks_view()[i].chunk.spec_ready() == old(self).chunks_view()[
                    i
                ].chunk.spec_ready() && final(self).chunks_view()[i].chunk.sections_view().len()
                    == old(self).chunks_view()[i].chunk.sections_view().len(),
            forall|i: int, s: int| 0 <= i < final(self).chunks_view().len()
                && 0 <= s < final(self).chunks_view()[i].chunk.sections_view().len()
                ==> (#[trigger] final(self).chunks_view()[i].chunk.sections_view()[s]).runs_view()
                    == old(self).chunks_view()[i].chunk.sections_view()[s].runs_view(),
            forall|i: int, s: int| 0 <= i < final(self).chunks_view().len()
                && 0 <= s < final(self).chunks_view()[i].chunk.sections_view().len()
                ==> (#[trigger] final(self).chunks_view()[i].chunk.sections_view()[s]).dirty_view()
                    == (if pos_in_prefix(
                    old(self).newly_loaded_view(),
                    old(self).newly_loaded_view().len() as int,
                    final(self).chunks_view()[i].cx as int,
                    final(self).chunks_view()[i].cz as int,
                ) {
                    Seq::<u16>::empty()
                } else {
                    old(self).chunks_view()[i].chunk.sections_view()[s].dirty_view()
                }),
            r@.len() == old(self).newly_loaded_view().len(),
            forall|k: int| 0 <= k < r@.len() ==> (#[trigger] r@[k]).cx
                == old(self).newly_loaded_view()[k].0 && r@[k].cz
                == old(self).newly_loaded_view()[k].1 && r@[k].sections@.len() == old(
                self,
            ).chunk_at(r@[k].cx as int, r@[k].cz as int).sections_view().len() && (forall|j: int|
                0 <= j < r@[k].sections@.len() ==> chunk_section::encoding_matches(
                    #[trigger] r@[k].sections@[j],
                    old(self).chunk_at(r@[k].cx as int, r@[k].cz as int).sections_view()[
                        j
                    ].runs_view(),
                    old(self).chunk_at(r@[k].cx as int, r@[k].cz as int).sections_view()[
                        j
                    ].blocks(),
                )),
    {
        let mut out: Vec<ChunkPayload> = Vec::new();
        let mut k: usize = 0;
        let n = self.newly_loaded.len();
        while k < n
            invariant
                self.wf(),
                k <= n,
                self.newly_loaded@ == old(self).newly_loaded@,
                n == self.newly_loaded@.len(),
                self.ready_view() == old(self).ready_view(),
                self.spec_height() == old(self).spec_height(),
                self.dim_id_view() == old(self).dim_id_view(),
                self.chunks_view().len() == old(self).chunks_view().len(),
                forall|i: int| 0 <= i < self.chunks_view().len()
                    ==> (#[trigger] self.chunks_view()[i]).cx == old(self).chunks_view()[i].cx
                        && self.chunks_view()[i].cz == old(self).chunks_view()[i].cz
                        && self.chunks_view()[i].chunk.spec_ready() == old(self).chunks_view()[
                        i
                    ].chunk.spec_ready() && self.chunks_view()[i].chunk.sections_view().len()
                        == old(self).chunks_view()[i].chunk.sections_view().len(),
                forall|i: int, s: int| 0 <= i < self.chunks_view().len()
                    && 0 <= s < self.chunks_view()[i].chunk.sections_view().len()
                    ==> (#[trigger] self.chunks_view()[i].chunk.sections_view()[s]).runs_view()
                        == old(self).chunks_view()[i].chunk.sections_view()[s].runs_view(),
                forall|i: int, s: int| 0 <= i < self.chunks_view().len()
                    && 0 <= s < self.chunks_view()[i].chunk.sections_view().len()
                    ==> (#[trigger] self.chunks_view()[i].chunk.sections_view()[s]).dirty_view()
                        == (if pos_in_prefix(
                        old(self).newly_loaded_view(),
                        k as int,
                        self.chunks_view()[i].cx as int,
                        self.chunks_view()[i].cz as int,
                    ) {
                        Seq::<u16>::empty()
                    } else {
                        old(self).chunks_view()[i].chunk.sections_view()[s].dirty_view()
                    }),
                out@.len() == k,
                forall|q: int| 0 <= q < k ==> (#[trigger] out@[q]).cx
                    == old(self).newly_loaded_view()[q].0 && out@[q].cz
                    == old(self).newly_loaded_view()[q].1 && out@[q].sections@.len() == old(
                    self,
                ).chunk_at(out@[q].cx as int, out@[q].cz as int).sections_view().len() && (forall|
                    j: int,
                |
                    0 <= j < out@[q].sections@.len() ==> chunk_section::encoding_matches(
                        #[trigger] out@[q].sections@[j],
                        old(self).chunk_at(out@[q].cx as int, out@[q].cz as int).sections_view()[
                            j
                        ].runs_view(),
                        old(self).chunk_at(out@[q].cx as int, out@[q].cz as int).sections_view()[
                            j
                        ].blocks(),
                    )),
            decreases n - k,
        {
            let (pcx, pcz) = self.newly_loaded[k];
            proof {
                assert(self.newly_loaded_view()[k as int] == (pcx, pcz));
                assert(self.has_chunk(pcx as int, pcz as int));
            }
            let ci = self.find_chunk(pcx, pcz);
            proof {
                lemma_find_pos(self.chunks@, pcx as int, pcz as int);
                lemma_find_pos(old(self).chunks@, pcx as int, pcz as int);
                lemma_find_pos_same_positions(
                    self.chunks_view(),
                    old(self).chunks_view(),
                    pcx as int,
                    pcz as int,
                );
            }
            let secs = self.chunk_payload_sections(ci);
            let ghost prev = *self;
            proof {
                assert forall|j: int| 0 <= j < secs@.len()
                    implies chunk_section::encoding_matches(
                    #[trigger] secs@[j],
                    old(self).chunk_at(pcx as int, pcz as int).sections_view()[j].runs_view(),
                    old(self).chunk_at(pcx as int, pcz as int).sections_view()[j].blocks(),
                ) by {
                    let s_prev = prev.chunks_view()[ci as int].chunk.sections_view()[j];
                    let s_old = old(self).chunks_view()[ci as int].chunk.sections_view()[j];
                    assert(s_prev.runs_view() == s_old.runs_view());
                    lemma_runs_equal_blocks_equal(s_prev, s_old);
                }
            }
            self.clear_chunk_dirty(ci);
            out.push(ChunkPayload { cx: pcx, cz: pcz, sections: secs });
            k = k + 1;
            proof {
                assert forall|i: int, s: int| 0 <= i < self.chunks_view().len()
                    && 0 <= s < self.chunks_view()[i].chunk.sections_view().len()
                    implies (#[trigger] self.chunks_view()[i].chunk.sections_view()[
                    s
                ]).dirty_view() == (if pos_in_prefix(
                    old(self).newly_loaded_view(),
                    k as int,
                    self.chunks_view()[i].cx as int,
                    self.chunks_view()[i].cz as int,
                ) {
                    Seq::<u16>::empty()
                } else {
                    old(self).chunks_view()[i].chunk.sections_view()[s].dirty_view()
                }) by {
                    let icx = self.chunks_view()[i].cx as int;
                    let icz = self.chunks_view()[i].cz as int;
                    if i == ci as int {
                        assert(old(self).newly_loaded_view()[k - 1] == (pcx, pcz));
                        assert(self.chunks_view()[i].cx == pcx && self.chunks_view()[i].cz == pcz);
                        assert(pos_in_prefix(old(self).newly_loaded_view(), k as int, icx, icz));
                    } else {
                        assert(self.chunks_view()[i].chunk.sections_view()[s]
                            == prev.chunks_view()[i].chunk.sections_view()[s]);
                        if pos_in_prefix(old(self).newly_loaded_view(), k as int, icx, icz)
                            && !pos_in_prefix(
                            old(self).newly_loaded_view(),
                            k - 1,
                            icx,
                            icz,
                        ) {
                            let t = choose|t: int| 0 <= t < k && #[trigger] old(
                                self,
                            ).newly_loaded_view()[t] == (icx as i32, icz as i32);
                            assert(t == k - 1);
                            assert((pcx, pcz) == (icx as i32, icz as i32));
                            lemma_find_pos_self(self.chunks_view(), i);
                            lemma_find_pos_same_positions(
                                self.chunks_view(),
                                prev.chunks_view(),
                                icx,
                                icz,
                            );
                            assert(false);
                        }
                    }
                }
            }
        }
        self.newly_loaded.clear();
        proof {
            self.lemma_wf_preserved(old(self));
        }
        out
    }

    /// The differential update owed by every section of every loaded
    /// chunk, in chunk-list order and ascending section order, and
    /// clear every dirty set. An entry is `None` for a clean section.
    pub fn flush_updates(&mut self) -> (r: Vec<(i32, i32, Vec<Option<chunk_section::SectionUpdate>>)>)
        requires
            old(self).wf(),
        ensures
            final(self).wf(),
            final(self).newly_loaded_view() == old(self).newly_loaded_view(),
            final(self).ready_view() == old(self).ready_view(),
            final(self).spec_height() == old(self).spec_height(),
            final(self).dim_id_view() == old(self).dim_id_view(),
            final(self).chunks_view().len() == old(self).chunks_view().len(),
            forall|i: int| 0 <= i < final(self).chunks_view().len()
                ==> (#[trigger] final(self).chunks_view()[i]).cx == old(self).chunks_view()[i].cx
                    && final(self).chunks_view()[i].cz == old(self).chunks_view()[i].cz
                    && final(self).chunks_view()[i].chunk.spec_ready() == old(self).chunks_view()[
                    i
                ].chunk.spec_ready() && final(self).chunks_view()[i].chunk.sections_view().len()
                    == old(self).chunks_view()[i].chunk.sections_view().len(),
            forall|i: int, s: int| 0 <= i < final(self).chunks_view().len()
                && 0 <= s < final(self).chunks_view()[i].chunk.sections_view().len()
                ==> (#[trigger] final(self).chunks_view()[i].chunk.sections_view()[s]).runs_view()
                    == old(self).chunks_view()[i].chunk.sections_view()[s].runs_view()
                    && final(self).chunks_view()[i].chunk.sections_view()[s].dirty_view()
                    =~= Seq::<u16>::empty(),
            r@.len() == old(self).chunks_view().len(),
            forall|i: int| 0 <= i < r@.len() ==> (#[trigger] r@[i]).0
                == old(self).chunks_view()[i].cx && r@[i].1 == old(self).chunks_view()[i].cz
                && r@[i].2@.len() == old(self).chunks_view()[i].chunk.sections_view().len() && (
            forall|s: int|
                0 <= s < r@[i].2@.len() ==> chunk_section::update_matches(
                    #[trigger] r@[i].2@[s],
                    old(self).chunks_view()[i].chunk.sections_view()[s].blocks(),
                    old(self).chunks_view()[i].chunk.sections_view()[s].dirty_view(),
                    old(self).chunks_view()[i].cx as int,
                    s,
                    old(self).chunks_view()[i].cz as int,
                )),
    {
        let mut out: Vec<(i32, i32, Vec<Option<chunk_section::SectionUpdate>>)> = Vec::new();
        let mut i: usize = 0;
        let n = self.chunks.len();
        while i < n
            invariant
                self.wf(),
                i <= n,
                n == self.chunks_view().len(),
                self.newly_loaded_view() == old(self).newly_loaded_view(),
                self.ready_view() == old(self).ready_view(),
                self.spec_height() == old(self).spec_height(),
                self.dim_id_view() == old(self).dim_id_view(),
                self.chunks_view().len() == old(self).chunks_view().len(),
                forall|q: int| 0 <= q < self.chunks_view().len()
                    ==> (#[trigger] self.chunks_view()[q]).cx == old(self).chunks_view()[q].cx
                        && self.chunks_view()[q].cz == old(self).chunks_view()[q].cz
                        && self.chunks_view()[q].chunk.spec_ready() == old(self).chunks_view()[
                        q
                    ].chunk.spec_ready() && self.chunks_view()[q].chunk.sections_view().len()
                        == old(self).chunks_view()[q].chunk.sections_view().len(),
                forall|q: int, s: int| 0 <= q < self.chunks_view().len()
                    && 0 <= s < self.chunks_view()[q].chunk.sections_view().len()
                    ==> (#[trigger] self.chunks_view()[q].chunk.sections_view()[s]).runs_view()
                        == old(self).chunks_view()[q].chunk.sections_view()[s].runs_view()
                        && self.chunks_view()[q].chunk.sections_view()[s].dirty_view() == (
                        if q < i {
                        Seq::<u16>::empty()
                    } else {
                        old(self).chunks_view()[q].chunk.sections_view()[s].dirty_view()
                    }),
                out@.len() == i,
                forall|q: int| 0 <= q < i ==> (#[trigger] out@[q]).0
                    == old(self).chunks_view()[q].cx && out@[q].1 == old(self).chunks_view()[q].cz
                    && out@[q].2@.len() == old(self).chunks_view()[q].chunk.sections_view().len()
                    && (forall|s: int|
                    0 <= s < out@[q].2@.len() ==> chunk_section::update_matches(
                        #[trigger] out@[q].2@[s],
                        old(self).chunks_view()[q].chunk.sections_view()[s].blocks(),
                        old(self).chunks_view()[q].chunk.sections_view()[s].dirty_view(),
                        old(self).chunks_view()[q].cx as int,
                        s,
                        old(self).chunks_view()[q].cz as int,
                    )),
            decreases n - i,
        {
            let pcx = self.chunks[i].cx;
            let pcz = self.chunks[i].cz;
            let mut updates: Vec<Option<chunk_section::SectionUpdate>> = Vec::new();
            let m = self.chunks[i].chunk.sections.len();
            let mut s: usize = 0;
            while s < m
                invariant
                    self.wf(),
                    i < self.chunks_view().len(),
                    m == self.chunks_view()[i as int].chunk.sections_view().len(),
                    s <= m,
                    m <= i32::MAX,
                    pcx == self.chunks_view()[i as int].cx,
                    pcz == self.chunks_view()[i as int].cz,
                    updates@.len() == s,
                    forall|t: int| 0 <= t < s ==> chunk_section::update_matches(
                        #[trigger] updates@[t],
                        self.chunks_view()[i as int].chunk.sections_view()[t].blocks(),
                        self.chunks_view()[i as int].chunk.sections_view()[t].dirty_view(),
                        pcx as int,
                        t,
                        pcz as int,
                    ),
                decreases m - s,
            {
                let u = self.chunks[i].chunk.sections[s].update_packet(pcx, s as i32, pcz);
                updates.push(u);
                s = s + 1;
            }
            let ghost prev = *self;
            self.clear_chunk_dirty(i);
            proof {
                assert forall|t: int| 0 <= t < updates@.len()
                    implies chunk_section::update_matches(
                    #[trigger] updates@[t],
                    old(self).chunks_view()[i as int].chunk.sections_view()[t].blocks(),
                    old(self).chunks_view()[i as int].chunk.sections_view()[t].dirty_view(),
                    pcx as int,
                    t,
                    pcz as int,
                ) by {
                    assert(prev.chunks_view()[i as int].chunk.sections_view()[t].runs_view()
                        == old(self).chunks_view()[i as int].chunk.sections_view()[t].runs_view());
                    assert(prev.chunks_view()[i as int].chunk.sections_view()[t].dirty_view()
                        == old(self).chunks_view()[i as int].chunk.sections_view()[t].dirty_view());
                    lemma_runs_equal_blocks_equal(
                        prev.chunks_view()[i as int].chunk.sections_view()[t],
                        old(self).chunks_view()[i as int].chunk.sections_view()[t],
                    );
                }
            }
            out.push((pcx, pcz, updates));
            i = i + 1;
        }
        proof {
            assert forall|q: int, s: int| 0 <= q < self.chunks_view().len()
                && 0 <= s < self.chunks_view()[q].chunk.sections_view().len()
                implies (#[trigger] self.chunks_view()[q].chunk.sections_view()[s]).dirty_view()
                    =~= Seq::<u16>::empty() by {
            }
        }
        out
    }
}

/// A chunk column exactly as loading created it: not ready, the
/// dimension's section count, every cell air, nothing dirty.
pub open spec fn fresh_air_chunk(c: Chunk, section_count: int) -> bool {
    &&& !c.spec_ready()
    &&& c.sections_view().len() == section_count
    &&& forall|s: int| 0 <= s < c.sections_view().len() ==> (#[trigger] c.sections_view()[
        s
    ]).blocks() =~= Seq::new(4096, |q: int| BLOCK_AIR) && c.sections_view()[s].dirty_view()
        =~= Seq::<u16>::empty()
}

/// The spiral of chunk positions around a centre, as absolute
/// coordinates: the centre itself, then each ring corner to corner.
pub open spec fn spec_spiral_abs(centre_x: int, centre_z: int, v: int) -> Seq<(i32, i32)> {
    Seq::new(
        spec_spiral(v).len(),
        |k: int| ((centre_x + spec_spiral(v)[k].0) as i32, (centre_z + spec_spiral(v)[k].1) as i32),
    )
}

/// Which of a walked position list gets loaded, in walk order: every
/// position not already loaded, each exactly once even if the walk
/// repeats it.
pub open spec fn spec_fresh_loads(w: &World, positions: Seq<(i32, i32)>) -> Seq<(i32, i32)>
    decreases positions.len(),
{
    if positions.len() == 0 {
        Seq::empty()
    } else {
        let rest = spec_fresh_loads(w, positions.drop_last());
        let p = positions.last();
        if !w.has_chunk(p.0 as int, p.1 as int) && !positions.drop_last().contains(p) {
            rest.push(p)
        } else {
            rest
        }
    }
}

/// Walking one more position loads it exactly when it is neither
/// already loaded nor walked before.
proof fn lemma_fresh_loads_step(w: &World, positions: Seq<(i32, i32)>, i: int)
    requires
        0 <= i < positions.len(),
    ensures
        spec_fresh_loads(w, positions.take(i + 1)) == (if !w.has_chunk(
            positions[i].0 as int,
            positions[i].1 as int,
        ) && !positions.take(i).contains(positions[i]) {
            spec_fresh_loads(w, positions.take(i)).push(positions[i])
        } else {
            spec_fresh_loads(w, positions.take(i))
        }),
{
    let t1 = positions.take(i + 1);
    assert(t1.drop_last() =~= positions.take(i));
    assert(t1.last() == positions[i]);
}

impl World {
    /// Walk the spiral of positions around a centre up to the view
    /// distance and load an all-air chunk at every position not yet
    /// loaded, queueing each for a full send. Returns the positions
    /// loaded now, in spiral order — the walk order of
    /// [`spec_spiral_abs`] restricted to fresh positions — so upstream
    /// generation can be asked to fill them.
    pub fn queue_loads(&mut self, centre_x: i32, centre_z: i32, view_dist: u8) -> (r: Vec<
        (i32, i32),
    >)
        requires
            old(self).wf(),
            i32::MIN + 1024 <= centre_x <= i32::MAX - 1024,
            i32::MIN + 1024 <= centre_z <= i32::MAX - 1024,
        ensures
            final(self).wf(),
            final(self).spec_height() == old(self).spec_height(),
            final(self).dim_id_view() == old(self).dim_id_view(),
            final(self).ready_view() == old(self).ready_view(),
            final(self).chunks_view().take(old(self).chunks_view().len() as int)
                =~= old(self).chunks_view(),
            final(self).chunks_view().len() == old(self).chunks_view().len() + r@.len(),
            final(self).newly_loaded_view() =~= old(self).newly_loaded_view() + r@,
            forall|k: int| 0 <= k < spec_spiral(view_dist as int).len() ==> final(self).has_chunk(
                centre_x + #[trigger] spec_spiral(view_dist as int)[k].0,
                centre_z + spec_spiral(view_dist as int)[k].1,
            ),
            forall|q: int| 0 <= q < r@.len() ==> !old(self).has_chunk(
                (#[trigger] r@[q]).0 as int,
                r@[q].1 as int,
            ) && (exists|k: int| 0 <= k < spec_spiral(view_dist as int).len() && (
            #[trigger] spec_spiral(view_dist as int)[k]) == (r@[q].0 - centre_x, r@[q].1
                - centre_z)),
            r@ =~= spec_fresh_loads(
                old(self),
                spec_spiral_abs(centre_x as int, centre_z as int, view_dist as int),
            ),
            forall|q: int| 0 <= q < r@.len() ==> fresh_air_chunk(
                final(self).chunk_at((#[trigger] r@[q]).0 as int, r@[q].1 as int),
                spec_section_count(old(self).spec_height()) as int,
            ),
    {
        let positions = spiral_positions(centre_x, centre_z, view_dist);
        proof {
            assert(positions@ =~= spec_spiral_abs(
                centre_x as int,
                centre_z as int,
                view_dist as int,
            )) by {
                assert forall|k: int| 0 <= k < positions@.len() implies positions@[k]
                    == spec_spiral_abs(centre_x as int, centre_z as int, view_dist as int)[k] by {
                    let off = spec_spiral(view_dist as int)[k];
                    assert(positions@[k].0 as int == centre_x + off.0);
                    assert(positions@[k].1 as int == centre_z + off.1);
                }
            }
            assert(positions@.take(0) =~= Seq::<(i32, i32)>::empty());
        }
        let mut loaded: Vec<(i32, i32)> = Vec::new();
        let mut i: usize = 0;
        while i < positions.len()
            invariant
                self.wf(),
                i <= positions@.len(),
                positions@.len() == spec_spiral(view_dist as int).len(),
                forall|k: int| 0 <= k < positions@.len() ==> (#[trigger] positions@[k]).0
                    == centre_x + spec_spiral(view_dist as int)[k].0 && positions@[k].1 == centre_z
                    + spec_spiral(view_dist as int)[k].1,
                self.spec_height() == old(self).spec_height(),
                self.dim_id_view() == old(self).dim_id_view(),
                self.ready_view() == old(self).ready_view(),
                self.chunks_view().take(old(self).chunks_view().len() as int)
                    =~= old(self).chunks_view(),
                self.chunks_view().len() == old(self).chunks_view().len() + loaded@.len(),
                self.newly_loaded_view() =~= old(self).newly_loaded_view() + loaded@,
                forall|cx: int, cz: int| #[trigger] find_pos(old(self).chunks_view(), cx, cz)
                    < old(self).chunks_view().len() ==> find_pos(self.chunks_view(), cx, cz)
                    == find_pos(old(self).chunks_view(), cx, cz),
                forall|k: int| 0 <= k < i ==> self.has_chunk(
                    (#[trigger] positions@[k]).0 as int,
                    positions@[k].1 as int,
                ),
                forall|q: int| 0 <= q < loaded@.len() ==> !old(self).has_chunk(
                    (#[trigger] loaded@[q]).0 as int,
                    loaded@[q].1 as int,
                ) && (exists|k: int| 0 <= k < positions@.len() && (#[trigger] positions@[k])
                    == loaded@[q]),
                loaded@ =~= spec_fresh_loads(old(self), positions@.take(i as int)),
                forall|p: (i32, i32)| #[trigger] self.has_chunk(p.0 as int, p.1 as int) <==> old(
                    self,
                ).has_chunk(p.0 as int, p.1 as int) || positions@.take(i as int).contains(p),
                forall|q: int| 0 <= q < loaded@.len() ==> self.has_chunk(
                    (#[trigger] loaded@[q]).0 as int,
                    loaded@[q].1 as int,
                ) && fresh_air_chunk(
                    self.chunk_at(loaded@[q].0 as int, loaded@[q].1 as int),
                    spec_section_count(old(self).spec_height()) as int,
                ),
            decreases positions@.len() - i,
        {
            let (pcx, pcz) = positions[i];
            let ghost prev = *self;
            let was_loaded = self.try_load_chunk(pcx, pcz);
            if was_loaded {
                loaded.push((pcx, pcz));
            }
            i = i + 1;
            proof {
                let oldc = old(self).chunks_view();
                let prevc = prev.chunks_view();
                let curc = self.chunks_view();
                let ghost pi: (i32, i32) = (pcx, pcz);
                assert(positions@[i - 1] == pi);
                assert(positions@.take(i as int) =~= positions@.take(i - 1).push(pi));
                // Walking this position loads it exactly when it is
                // fresh to the walk and to the world.
                lemma_fresh_loads_step(old(self), positions@, i - 1);
                assert(prev.has_chunk(pi.0 as int, pi.1 as int) <==> old(self).has_chunk(
                    pi.0 as int,
                    pi.1 as int,
                ) || positions@.take(i - 1).contains(pi));
                if was_loaded {
                    assert(curc.take(prevc.len() as int) =~= prevc);
                    assert(curc =~= prevc.push(curc.last()));
                    assert(curc.take(oldc.len() as int) =~= prevc.take(oldc.len() as int));
                    assert(self.newly_loaded_view() =~= old(self).newly_loaded_view() + loaded@);
                    assert forall|cx: int, cz: int| #[trigger] find_pos(oldc, cx, cz) < oldc.len()
                        implies find_pos(curc, cx, cz) == find_pos(oldc, cx, cz) by {
                        lemma_find_pos_push(prevc, curc.last(), cx, cz);
                        lemma_find_pos(prevc, cx, cz);
                    }
                    assert forall|k: int| 0 <= k < i implies self.has_chunk(
                        (#[trigger] positions@[k]).0 as int,
                        positions@[k].1 as int,
                    ) by {
                        if k < i - 1 {
                            lemma_find_pos_push(
                                prevc,
                                curc.last(),
                                positions@[k].0 as int,
                                positions@[k].1 as int,
                            );
                        }
                    }
                    assert forall|q: int| 0 <= q < loaded@.len() implies !old(self).has_chunk(
                        (#[trigger] loaded@[q]).0 as int,
                        loaded@[q].1 as int,
                    ) && (exists|k: int| 0 <= k < positions@.len() && (#[trigger] positions@[k])
                        == loaded@[q]) by {
                        if q == loaded@.len() - 1 {
                            assert(loaded@[q] == (pcx, pcz));
                            assert(positions@[i - 1] == (pcx, pcz));
                            if old(self).has_chunk(pcx as int, pcz as int) {
                                assert(find_pos(prevc, pcx as int, pcz as int) == find_pos(
                                    oldc,
                                    pcx as int,
                                    pcz as int,
                                ));
                                assert(false);
                            }
                        } else {
                            assert(loaded@[q] == loaded@.drop_last()[q]);
                        }
                    }
                    // The loaded list mirrors the fresh-loads walk.
                    assert(!prev.has_chunk(pi.0 as int, pi.1 as int));
                    assert(loaded@ =~= spec_fresh_loads(old(self), positions@.take(i as int)));
                    // Presence after the push: this position and
                    // everything already present.
                    assert forall|p: (i32, i32)| #[trigger] self.has_chunk(p.0 as int, p.1 as int)
                        <==> (old(self).has_chunk(p.0 as int, p.1 as int) || positions@.take(
                        i as int,
                    ).contains(p)) by {
                        lemma_find_pos(prevc, p.0 as int, p.1 as int);
                        lemma_find_pos(curc, p.0 as int, p.1 as int);
                        lemma_find_pos_push(prevc, curc.last(), p.0 as int, p.1 as int);
                        assert(prev.has_chunk(p.0 as int, p.1 as int) <==> (old(self).has_chunk(
                            p.0 as int,
                            p.1 as int,
                        ) || positions@.take(i - 1).contains(p)));
                        if positions@.take(i as int).contains(p) {
                            let idx = choose|idx: int| 0 <= idx < positions@.take(i as int).len()
                                && #[trigger] positions@.take(i as int)[idx] == p;
                            if idx < i - 1 {
                                assert(positions@.take(i - 1)[idx] == p);
                            } else {
                                assert(p == pi);
                            }
                        }
                        if positions@.take(i - 1).contains(p) {
                            let idx = choose|idx: int| 0 <= idx < positions@.take(i - 1).len()
                                && #[trigger] positions@.take(i - 1)[idx] == p;
                            assert(positions@.take(i as int)[idx] == p);
                        }
                        if p == pi {
                            assert(positions@.take(i as int)[i - 1] == p);
                            assert(self.has_chunk(p.0 as int, p.1 as int));
                        }
                    }
                    // Chunks loaded by this pass stay exactly as
                    // loading created them.
                    assert forall|q: int| 0 <= q < loaded@.len() implies self.has_chunk(
                        (#[trigger] loaded@[q]).0 as int,
                        loaded@[q].1 as int,
                    ) && fresh_air_chunk(
                        self.chunk_at(loaded@[q].0 as int, loaded@[q].1 as int),
                        spec_section_count(old(self).spec_height()) as int,
                    ) by {
                        let p = loaded@[q];
                        lemma_find_pos(prevc, p.0 as int, p.1 as int);
                        lemma_find_pos_push(prevc, curc.last(), p.0 as int, p.1 as int);
                        if q < loaded@.len() - 1 {
                            assert(loaded@.drop_last()[q] == p);
                            assert(prev.has_chunk(p.0 as int, p.1 as int));
                            assert(find_pos(curc, p.0 as int, p.1 as int) == find_pos(
                                prevc,
                                p.0 as int,
                                p.1 as int,
                            ));
                            assert(curc[find_pos(curc, p.0 as int, p.1 as int)] == prevc[find_pos(
                                prevc,
                                p.0 as int,
                                p.1 as int,
                            )]);
                        } else {
                            assert(p == pi);
                            assert(find_pos(prevc, p.0 as int, p.1 as int) == prevc.len());
                            assert(find_pos(curc, p.0 as int, p.1 as int) == prevc.len());
                            assert(self.chunk_at(p.0 as int, p.1 as int) == curc.last().chunk);
                        }
                    }
                } else {
                    assert(curc == prevc);
                    assert(prev.has_chunk(pi.0 as int, pi.1 as int));
                    assert(loaded@ =~= spec_fresh_loads(old(self), positions@.take(i as int)));
                    assert forall|p: (i32, i32)| #[trigger] self.has_chunk(p.0 as int, p.1 as int)
                        <==> (old(self).has_chunk(p.0 as int, p.1 as int) || positions@.take(
                        i as int,
                    ).contains(p)) by {
                        assert(prev.has_chunk(p.0 as int, p.1 as int) <==> (old(self).has_chunk(
                            p.0 as int,
                            p.1 as int,
                        ) || positions@.take(i - 1).contains(p)));
                        if positions@.take(i as int).contains(p) {
                            let idx = choose|idx: int| 0 <= idx < positions@.take(i as int).len()
                                && #[trigger] positions@.take(i as int)[idx] == p;
                            if idx < i - 1 {
                                assert(positions@.take(i - 1)[idx] == p);
                            } else {
                                assert(p == pi);
                            }
                        }
                        if positions@.take(i - 1).contains(p) {
                            let idx = choose|idx: int| 0 <= idx < positions@.take(i - 1).len()
                                && #[trigger] positions@.take(i - 1)[idx] == p;
                            assert(positions@.take(i as int)[idx] == p);
                        }
                        if p == pi {
                            assert(positions@.take(i as int)[i - 1] == p);
                            assert(self.has_chunk(p.0 as int, p.1 as int));
                        }
                    }
                }
            }
        }
        proof {
            assert forall|k: int| 0 <= k < spec_spiral(view_dist as int).len()
                implies self.has_chunk(
                centre_x + #[trigger] spec_spiral(view_dist as int)[k].0,
                centre_z + spec_spiral(view_dist as int)[k].1,
            ) by {
                assert(self.has_chunk(positions@[k].0 as int, positions@[k].1 as int));
            }
            assert forall|q: int| 0 <= q < loaded@.len() implies !old(self).has_chunk(
                (#[trigger] loaded@[q]).0 as int,
                loaded@[q].1 as int,
            ) && (exists|k: int| 0 <= k < spec_spiral(view_dist as int).len() && (
            #[trigger] spec_spiral(view_dist as int)[k]) == (loaded@[q].0 - centre_x, loaded@[q].1
                - centre_z)) by {
                let k = choose|k: int| 0 <= k < positions@.len() && (#[trigger] positions@[k])
                    == loaded@[q];
                assert(spec_spiral(view_dist as int)[k] == (loaded@[q].0 - centre_x, loaded@[q].1
                    - centre_z));
            }
            assert(positions@.take(positions@.len() as int) =~= positions@);
            assert(loaded@ =~= spec_fresh_loads(
                old(self),
                spec_spiral_abs(centre_x as int, centre_z as int, view_dist as int),
            ));
        }
        loaded
    }
}

/// Two sections with the same run list hold the same blocks.
pub proof fn lemma_runs_equal_blocks_equal(
    s1: chunk_section::ChunkSection,
    s2: chunk_section::ChunkSection,
)
    requires
        s1.runs_view() == s2.runs_view(),
    ensures
        s1.blocks() == s2.blocks(),
{
    s1.lemma_blocks_from_runs();
    s2.lemma_blocks_from_runs();
}

/// Append one spiral edge to a position list: `n` steps from offset
/// `(ox, oz)` around the centre, moving by `(dx, dz)` each step.
fn push_edge(
    out: &mut Vec<(i32, i32)>,
    centre_x: i32,
    centre_z: i32,
    ox: i32,
    oz: i32,
    dx: i32,
    dz: i32,
    n: u32,
)
    requires
        -256 <= ox <= 256,
        -256 <= oz <= 256,
        -1 <= dx <= 1,
        -1 <= dz <= 1,
        n <= 512,
        i32::MIN + 1024 <= centre_x <= i32::MAX - 1024,
        i32::MIN + 1024 <= centre_z <= i32::MAX - 1024,
    ensures
        final(out)@.len() == old(out)@.len() + n,
        final(out)@.take(old(out)@.len() as int) =~= old(out)@,
        forall|i: int| 0 <= i < n ==> (#[trigger] final(out)@[old(out)@.len() + i]).0 == centre_x
            + ox + i * dx && final(out)@[old(out)@.len() + i].1 == centre_z + oz + i * dz,
{
    let mut i: u32 = 0;
    while i < n
        invariant
            -256 <= ox <= 256,
            -256 <= oz <= 256,
            -1 <= dx <= 1,
            -1 <= dz <= 1,
            n <= 512,
            i32::MIN + 1024 <= centre_x <= i32::MAX - 1024,
            i32::MIN + 1024 <= centre_z <= i32::MAX - 1024,
            i <= n,
            out@.len() == old(out)@.len() + i,
            out@.take(old(out)@.len() as int) =~= old(out)@,
            forall|k: int| 0 <= k < i ==> (#[trigger] out@[old(out)@.len() + k]).0 == centre_x
                + ox + k * dx && out@[old(out)@.len() + k].1 == centre_z + oz + k * dz,
        decreases n - i,
    {
        proof {
            assert(-512 <= (i as int) * dx <= 512 && -512 <= (i as int) * dz <= 512)
                by (nonlinear_arith)
                requires
                    0 <= i <= 512 && -1 <= dx <= 1 && -1 <= dz <= 1,
            ;
        }
        let step_x = ox + (i as i32) * dx;
        let step_z = oz + (i as i32) * dz;
        out.push((centre_x + step_x, centre_z + step_z));
        i = i + 1;
        proof {
            assert(out@.take(old(out)@.len() as int)
                =~= out@.drop_last().take(old(out)@.len() as int));
        }
    }
}

/// Chunk positions in a spiral of growing Chebyshev radius around a
/// centre: the centre first, then each ring walked corner by corner,
/// exactly as [`spec_spiral`] lays them out.
pub fn spiral_positions(centre_x: i32, centre_z: i32, view_dist: u8) -> (r: Vec<(i32, i32)>)
    requires
        i32::MIN + 1024 <= centre_x <= i32::MAX - 1024,
        i32::MIN + 1024 <= centre_z <= i32::MAX - 1024,
    ensures
        r@.len() == spec_spiral(view_dist as int).len(),
        forall|k: int| 0 <= k < r@.len() ==> (#[trigger] r@[k]).0 == centre_x + spec_spiral(
            view_dist as int,
        )[k].0 && r@[k].1 == centre_z + spec_spiral(view_dist as int)[k].1,
{
    let mut out: Vec<(i32, i32)> = Vec::new();
    out.push((centre_x, centre_z));
    proof {
        assert(spec_spiral(0)[0] == (0int, 0int));
    }
    let mut radius: u32 = 1;
    while radius <= view_dist as u32
        invariant
            i32::MIN + 1024 <= centre_x <= i32::MAX - 1024,
            i32::MIN + 1024 <= centre_z <= i32::MAX - 1024,
            1 <= radius <= view_dist as u32 + 1,
            view_dist <= 255,
            out@.len() == spec_spiral(radius - 1).len(),
            forall|k: int| 0 <= k < out@.len() ==> (#[trigger] out@[k]).0 == centre_x
                + spec_spiral(radius - 1)[k].0 && out@[k].1 == centre_z + spec_spiral(
                radius - 1,
            )[k].1,
        decreases view_dist as int + 1 - radius,
    {
        let r_i32 = radius as i32;
        let edge_len = 2 * radius;
        let ghost base = out@.len() as int;
        let ghost s0 = out@;
        let ghost rr = radius as int;
        push_edge(&mut out, centre_x, centre_z, -r_i32, -r_i32, 0, 1, edge_len);
        let ghost s1 = out@;
        push_edge(&mut out, centre_x, centre_z, -r_i32, r_i32, 1, 0, edge_len);
        let ghost s2 = out@;
        push_edge(&mut out, centre_x, centre_z, r_i32, -r_i32, -1, 0, edge_len);
        let ghost s3 = out@;
        push_edge(&mut out, centre_x, centre_z, r_i32, r_i32, 0, -1, edge_len);
        proof {
            lemma_ring_index(rr, 0);
            assert(spec_spiral(rr) == spec_spiral(rr - 1) + spec_ring(rr));
            assert(out@.len() == base + 8 * rr);
            assert(forall|k: int| 0 <= k < s3.len() ==> #[trigger] out@[k] == s3[k]);
            assert(forall|k: int| 0 <= k < s2.len() ==> #[trigger] s3[k] == s2[k]);
            assert(forall|k: int| 0 <= k < s1.len() ==> #[trigger] s2[k] == s1[k]);
            assert(forall|k: int| 0 <= k < s0.len() ==> #[trigger] s1[k] == s0[k]);
            assert forall|k: int| 0 <= k < out@.len() implies (#[trigger] out@[k]).0 == centre_x
                + spec_spiral(rr)[k].0 && out@[k].1 == centre_z + spec_spiral(rr)[k].1 by {
                if k < base {
                    assert(out@[k] == s0[k]);
                    assert(spec_spiral(rr)[k] == spec_spiral(rr - 1)[k]);
                } else {
                    let j = k - base;
                    lemma_ring_index(rr, j);
                    assert(spec_spiral(rr)[k] == spec_ring(rr)[j]);
                    if j < 2 * rr {
                        assert(out@[k] == s1[k]);
                        assert(s1[base + j].0 == centre_x + (-rr) + j * 0
                            && s1[base + j].1 == centre_z + (-rr) + j * 1);
                    } else if j < 4 * rr {
                        let i = j - 2 * rr;
                        assert(out@[k] == s2[k]);
                        assert(s2[s1.len() + i].0 == centre_x + (-rr) + i * 1
                            && s2[s1.len() + i].1 == centre_z + rr + i * 0);
                    } else if j < 6 * rr {
                        let i = j - 4 * rr;
                        assert(out@[k] == s3[k]);
                        assert(s3[s2.len() + i].0 == centre_x + rr + i * (-1)
                            && s3[s2.len() + i].1 == centre_z + (-rr) + i * 0);
                    } else {
                        let i = j - 6 * rr;
                        assert(out@[s3.len() + i].0 == centre_x + rr + i * 0
                            && out@[s3.len() + i].1 == centre_z + rr + i * (-1));
                    }
                }
            }
        }
        radius = radius + 1;
    }
    out
}

} // verus!
