//! Bulk world actions submitted by upstream logic, and the events the
//! paging engine emits back.

use vstd::prelude::*;
use super::World;
use super::setbatch;

verus! {

/// A chunk position was just loaded and awaits upstream generation.
pub struct WorldChunkLoading {
    /// The entity whose world loaded the chunk.
    pub entity: u64,
    /// The chunk position.
    pub pos: (i32, i32),
}

/// An upstream action against one entity's world.
pub struct WorldChunkActionEvent {
    /// The entity whose world is addressed.
    pub entity: u64,
    /// The action itself.
    pub action: WorldChunkAction,
}

/// What upstream logic may do to a world.
pub enum WorldChunkAction {
    /// Flip a chunk's ready flag and queue it on the ready list.
    MarkReady { chunk_pos: (i32, i32) },
    /// Apply a burst of block edits: absolute position, block
    /// identifier, and property overrides. The driver resolves each
    /// identifier and property map to a numeric block state id before
    /// the edit reaches the world.
    SetBlocks { blocks: Vec<((i64, i64, i64), String, Vec<(String, String)>)> },
}

/// Apply one action to a world. For a block burst, `resolved[k]` is
/// the numeric block state the driver resolved for `blocks[k]`, or
/// nothing where the identifier or its properties resolve to no known
/// state; unresolved entries are silently dropped, as are edits aimed
/// at unloaded chunks. The vertical coordinate is truncated to the
/// unsigned 16-bit range the section index arithmetic works in.
pub fn handle_action(
    world: &mut World,
    action: &WorldChunkAction,
    resolved: &Vec<Option<u32>>,
) -> (applied: Vec<((i64, u16, i64), u32)>)
    requires
        old(world).wf(),
        old(world).canonical(),
        action matches WorldChunkAction::SetBlocks { blocks } ==> {
            &&& resolved@.len() == blocks@.len()
            &&& forall|k: int| 0 <= k < blocks@.len() ==> super::coord_in_range(
                (#[trigger] blocks@[k]).0.0,
            ) && super::coord_in_range(blocks@[k].0.2)
        },
    ensures
        final(world).wf(),
        final(world).canonical(),
        match action {
            WorldChunkAction::MarkReady { chunk_pos } => {
                &&& applied@.len() == 0
                &&& final(world).newly_loaded_view() == old(world).newly_loaded_view()
                &&& (old(world).has_chunk(chunk_pos.0 as int, chunk_pos.1 as int) && !old(
                    world,
                ).chunk_at(chunk_pos.0 as int, chunk_pos.1 as int).spec_ready()
                    ==> final(world).ready_view() =~= old(world).ready_view().push(*chunk_pos))
                &&& (!(old(world).has_chunk(chunk_pos.0 as int, chunk_pos.1 as int) && !old(
                    world,
                ).chunk_at(chunk_pos.0 as int, chunk_pos.1 as int).spec_ready())
                    ==> final(world).ready_view() == old(world).ready_view())
                &&& forall|xo: int, yo: int, zo: int| #[trigger] final(world).spec_block_at(
                    xo,
                    yo,
                    zo,
                ) == old(world).spec_block_at(xo, yo, zo)
                &&& forall|i: int| 0 <= i < final(world).chunks_view().len()
                    ==> (#[trigger] final(world).chunks_view()[i]).chunk.sections_view()
                        == old(world).chunks_view()[i].chunk.sections_view()
            },
            WorldChunkAction::SetBlocks { blocks } => {
                &&& applied@ =~= spec_resolved_edits(old(world), blocks@, resolved@)
                &&& same_shape_for_action(final(world), old(world))
                &&& (forall|i: int, s: int, v: u16| 0 <= i < final(world).chunks_view().len()
                    && 0 <= s < final(world).chunks_view()[i].chunk.sections_view().len() ==> ((
                #[trigger] final(world).chunks_view()[i].chunk.sections_view()[s].dirty_view()
                    .contains(v)) <==> old(world).chunks_view()[i].chunk.sections_view()[
                    s
                ].dirty_view().contains(v) || setbatch::edit_marks(
                    applied@,
                    final(world).chunks_view()[i].cx as int,
                    final(world).chunks_view()[i].cz as int,
                    s,
                    v,
                )))
                &&& (forall|xo: int, yo: int, zo: int| #[trigger] final(world).spec_block_at(
                    xo,
                    yo,
                    zo,
                ) == (if old(world).spec_block_at(xo, yo, zo) is Some && setbatch::last_write(
                    applied@,
                    xo,
                    yo,
                    zo,
                ) is Some {
                    setbatch::last_write(applied@, xo, yo, zo)
                } else {
                    old(world).spec_block_at(xo, yo, zo)
                }))
            },
        },
{
    match action {
        WorldChunkAction::MarkReady { chunk_pos } => {
            let (cx, cz) = *chunk_pos;
            let _ = world.mark_ready(cx, cz);
            proof {
                super::lemma_find_pos_same_positions_all(world, old(world));
                assert forall|xo: int, yo: int, zo: int| #[trigger] world.spec_block_at(
                    xo,
                    yo,
                    zo,
                ) == old(world).spec_block_at(xo, yo, zo) by {
                    let p = super::find_pos(old(world).chunks_view(), xo / 16, zo / 16);
                    if old(world).has_chunk(xo / 16, zo / 16) {
                        super::lemma_find_pos(old(world).chunks_view(), xo / 16, zo / 16);
                        assert(world.chunks_view()[p].chunk.sections_view()
                            == old(world).chunks_view()[p].chunk.sections_view());
                    }
                }
                assert forall|i: int, si: int| 0 <= i < world.chunks_view().len() && 0 <= si
                    < world.chunks_view()[i].chunk.sections_view().len()
                    implies super::chunk_section::collapsed(
                    #[trigger] world.chunks_view()[i].chunk.sections_view()[si].runs_view(),
                ) by {
                    assert(world.chunks_view()[i].chunk.sections_view()
                        == old(world).chunks_view()[i].chunk.sections_view());
                }
            }
            Vec::new()
        },
        WorldChunkAction::SetBlocks { blocks } => {
            let mut edits: Vec<((i64, u16, i64), u32)> = Vec::new();
            let mut k: usize = 0;
            while k < blocks.len()
                invariant
                    world == old(world),
                    k <= blocks@.len(),
                    resolved@.len() == blocks@.len(),
                    forall|q: int| 0 <= q < blocks@.len() ==> super::coord_in_range(
                        (#[trigger] blocks@[q]).0.0,
                    ) && super::coord_in_range(blocks@[q].0.2),
                    edits@ =~= spec_resolved_edits(old(world), blocks@.take(k as int),
                        resolved@.take(k as int)),
                    forall|t: int| 0 <= t < edits@.len() ==> super::coord_in_range(
                        (#[trigger] edits@[t]).0.0,
                    ) && super::coord_in_range(edits@[t].0.2),
                decreases blocks@.len() - k,
            {
                if world.is_chunk_loaded(
                    super::floor_div_16(blocks[k].0.0) as i32,
                    super::floor_div_16(blocks[k].0.2) as i32,
                ) {
                    match resolved[k] {
                        Option::Some(id) => {
                            let pos = blocks[k].0;
                            #[verifier::truncate]
                            let y = pos.1 as u16;
                            edits.push(((pos.0, y, pos.2), id));
                            proof {
                                assert(super::coord_in_range(blocks@[k as int].0.0)
                                    && super::coord_in_range(blocks@[k as int].0.2));
                                assert(edits@.last().0.0 == blocks@[k as int].0.0
                                    && edits@.last().0.2 == blocks@[k as int].0.2);
                                lemma_resolved_edits_step(
                                    old(world),
                                    blocks@,
                                    resolved@,
                                    k as int,
                                );
                            }
                        },
                        Option::None => {
                            proof {
                                lemma_resolved_edits_step(old(world), blocks@, resolved@, k as int);
                            }
                        },
                    }
                } else {
                    proof {
                        lemma_resolved_edits_step(old(world), blocks@, resolved@, k as int);
                    }
                }
                k = k + 1;
            }
            proof {
                assert(blocks@.take(blocks@.len() as int) =~= blocks@);
                assert(resolved@.take(blocks@.len() as int) =~= resolved@);
            }
            world.set_blocks(&edits);
            edits
        },
    }
}

/// The shape preservation a block burst guarantees, shared with the
/// batch layer.
pub open spec fn same_shape_for_action(w1: &World, w2: &World) -> bool {
    setbatch::same_shape(w1, w2)
}

/// The edits a block burst hands the batch: one per entry whose
/// identifier resolved and whose chunk is loaded, in submission order,
/// with the vertical coordinate truncated to the section range.
pub open spec fn spec_resolved_edits(
    w: &World,
    blocks: Seq<((i64, i64, i64), String, Vec<(String, String)>)>,
    resolved: Seq<Option<u32>>,
) -> Seq<((i64, u16, i64), u32)>
    decreases blocks.len(),
{
    if blocks.len() == 0 || resolved.len() < blocks.len() {
        Seq::empty()
    } else {
        let rest = spec_resolved_edits(w, blocks.drop_last(), resolved.drop_last());
        let pos = blocks.last().0;
        match resolved.last() {
            Some(id) => {
                if w.has_chunk(pos.0 as int / 16, pos.2 as int / 16) {
                    rest.push(((pos.0, pos.1 as u16, pos.2), id))
                } else {
                    rest
                }
            },
            Option::None => rest,
        }
    }
}

/// Extending the prefixes by one entry extends the resolved edits by
/// exactly that entry, when it resolves into a loaded chunk.
proof fn lemma_resolved_edits_step(
    w: &World,
    blocks: Seq<((i64, i64, i64), String, Vec<(String, String)>)>,
    resolved: Seq<Option<u32>>,
    k: int,
)
    requires
        0 <= k < blocks.len(),
        resolved.len() == blocks.len(),
    ensures
        spec_resolved_edits(w, blocks.take(k + 1), resolved.take(k + 1)) =~= ({
            let rest = spec_resolved_edits(w, blocks.take(k), resolved.take(k));
            let pos = blocks[k].0;
            match resolved[k] {
                Some(id) => {
                    if w.has_chunk(pos.0 as int / 16, pos.2 as int / 16) {
                        rest.push(((pos.0, pos.1 as u16, pos.2), id))
                    } else {
                        rest
                    }
                },
                Option::None => rest,
            }
        }),
{
    assert(blocks.take(k + 1).drop_last() =~= blocks.take(k));
    assert(resolved.take(k + 1).drop_last() =~= resolved.take(k));
    assert(blocks.take(k + 1).last() == blocks[k]);
    assert(resolved.take(k + 1).last() == resolved[k]);
}

} // verus!
