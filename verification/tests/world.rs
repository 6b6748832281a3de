use flywheelmc_players::world::chunk_section::{ChunkSection, SectionEncoding, SectionUpdate};
use flywheelmc_players::world::action::{handle_action, WorldChunkAction};
use flywheelmc_players::world::setbatch::SetBlockBatch;
use flywheelmc_players::world::{
    in_section_block_delinearise, in_section_block_linearise, World, BLOCK_AIR,
};

const STONE: u32 = 10;

#[test]
fn linearise_round_trip_samples() {
    for &(dx, dy, dz) in &[(0u8, 0u8, 0u8), (15, 15, 15), (1, 0, 1), (2, 0, 1), (1, 0, 2), (7, 3, 9)] {
        let lin = in_section_block_linearise(dx, dy, dz);
        assert_eq!(in_section_block_delinearise(lin), (dx, dy, dz));
        assert_eq!(lin, ((dy as u16) << 8) | ((dz as u16) << 4) | dx as u16);
    }
}

#[test]
fn empty_section_is_air_everywhere() {
    let section = ChunkSection::empty();
    assert_eq!(section.checked_get(0), Some(BLOCK_AIR));
    assert_eq!(section.checked_get(4095), Some(BLOCK_AIR));
    assert_eq!(section.checked_get(4096), None);
    assert_eq!(section.get_xyz(3, 7, 11), BLOCK_AIR);
}

#[test]
fn split_overwrite_collapse_round_trip() {
    let mut section = ChunkSection::empty();
    section.split_out_all();
    let lin = in_section_block_linearise(1, 0, 1);
    section.overwrite_run_state(lin, STONE);
    section.collapse();
    assert_eq!(section.checked_get(lin), Some(STONE));
    assert_eq!(section.checked_get(lin + 1), Some(BLOCK_AIR));
    assert_eq!(section.checked_get(lin - 1), Some(BLOCK_AIR));
}

#[test]
fn checked_get_agrees_with_iter() {
    let mut section = ChunkSection::empty();
    section.split_out_all();
    section.overwrite_run_state(17, STONE);
    section.overwrite_run_state(4095, 7);
    section.collapse();
    let mut it = section.iter();
    let mut linear: u16 = 0;
    loop {
        match it.next() {
            Some(block) => {
                assert_eq!(section.checked_get(linear), Some(block));
                linear += 1;
            }
            None => break,
        }
    }
    assert_eq!(linear, 4096);
}

#[test]
fn update_packet_single_cell() {
    let mut section = ChunkSection::empty();
    section.split_out_all();
    let lin = in_section_block_linearise(5, 2, 3);
    section.overwrite_run_state(lin, STONE);
    section.collapse();
    match section.update_packet(2, 4, -3) {
        Some(SectionUpdate::Single { x, y, z, block }) => {
            assert_eq!(x, 2 * 16 + 5);
            assert_eq!(y, 4 * 16 + 2);
            assert_eq!(z, -3 * 16 + 3);
            assert_eq!(block, STONE);
        }
        other => panic!("expected a single-cell update, got {}", kind_of(&other)),
    }
    section.clear_dirty();
    assert!(section.update_packet(2, 4, -3).is_none());
}

fn kind_of(update: &Option<SectionUpdate>) -> &'static str {
    match update {
        None => "no update",
        Some(SectionUpdate::Single { .. }) => "single",
        Some(SectionUpdate::Multi { .. }) => "multi",
    }
}

#[test]
fn batched_set_emits_three_packed_entries() {
    // A chunk of default air; three stone cells written through one
    // batch land in the section at y = 4 and owe one multi-cell
    // update whose packed entries follow ascending linear order.
    let mut world = World::new(String::from("overworld"), 384);
    assert!(world.try_load_chunk(0, 0));
    let edits = vec![
        ((1i64, 64u16, 1i64), STONE),
        ((2i64, 64u16, 1i64), STONE),
        ((1i64, 64u16, 2i64), STONE),
    ];
    world.set_blocks(&edits);
    assert_eq!(world.get_block(1, 64, 1), Some(STONE));
    assert_eq!(world.get_block(2, 64, 1), Some(STONE));
    assert_eq!(world.get_block(1, 64, 2), Some(STONE));
    assert_eq!(world.get_block(0, 64, 0), Some(BLOCK_AIR));

    let flushed = world.flush_updates();
    assert_eq!(flushed.len(), 1);
    let (cx, cz, sections) = &flushed[0];
    assert_eq!((*cx, *cz), (0, 0));
    assert_eq!(sections.len(), 24);
    for (sec, update) in sections.iter().enumerate() {
        if sec == 4 {
            match update {
                Some(SectionUpdate::Multi { cx, cy, cz, entries }) => {
                    assert_eq!((*cx, *cy, *cz), (0, 4, 0));
                    let lin_a = in_section_block_linearise(1, 0, 1) as u64;
                    let lin_b = in_section_block_linearise(2, 0, 1) as u64;
                    let lin_c = in_section_block_linearise(1, 0, 2) as u64;
                    assert!(lin_a < lin_b && lin_b < lin_c);
                    let packed = |dx: u64, dy: u64, dz: u64| {
                        ((STONE as u64) << 12) | (dx << 8) | (dz << 4) | dy
                    };
                    assert_eq!(entries.as_slice(), &[
                        packed(1, 0, 1),
                        packed(2, 0, 1),
                        packed(1, 0, 2),
                    ]);
                }
                other => panic!("expected a multi-cell update, got {}", kind_of(other)),
            }
        } else {
            assert!(update.is_none());
        }
    }
    // A second flush owes nothing.
    let again = world.flush_updates();
    assert!(again.iter().all(|(_, _, sections)| sections.iter().all(|u| u.is_none())));
}

#[test]
fn last_write_wins_within_a_batch() {
    let mut world = World::new(String::from("overworld"), 64);
    assert!(world.try_load_chunk(0, 0));
    let edits = vec![
        ((3i64, 10u16, 3i64), 5u32),
        ((3i64, 10u16, 3i64), 6u32),
        ((4i64, 10u16, 3i64), 7u32),
    ];
    world.set_blocks(&edits);
    assert_eq!(world.get_block(3, 10, 3), Some(6));
    assert_eq!(world.get_block(4, 10, 3), Some(7));
}

#[test]
fn writes_to_unloaded_chunks_are_dropped() {
    let mut world = World::new(String::from("overworld"), 64);
    assert!(world.try_load_chunk(0, 0));
    let mut batch = SetBlockBatch::new(&world);
    batch.set(&mut world, 100, 10, 100, STONE);
    batch.set(&mut world, -1, 10, 0, STONE);
    batch.set(&mut world, 2, 10, 2, STONE);
    batch.finish(&mut world);
    assert_eq!(world.get_block(100, 10, 100), None);
    assert_eq!(world.get_block(-1, 10, 0), None);
    assert_eq!(world.get_block(2, 10, 2), Some(STONE));
}

#[test]
fn negative_coordinates_use_floor_arithmetic() {
    let mut world = World::new(String::from("overworld"), 64);
    assert!(world.try_load_chunk(-1, -1));
    let mut batch = SetBlockBatch::new(&world);
    batch.set(&mut world, -1, 0, -16, 9);
    batch.finish(&mut world);
    assert_eq!(world.get_block(-1, 0, -16), Some(9));
    assert_eq!(world.get_block(-2, 0, -16), Some(BLOCK_AIR));
}

#[test]
fn spiral_loads_25_chunks_in_ring_order() {
    // View distance 2 around (0, 0) on a 384-cell dimension: the 5x5
    // square loads centre first, then each ring corner to corner.
    let mut world = World::new(String::from("overworld"), 384);
    let loaded = world.queue_loads(0, 0, 2);
    let expected = vec![
        (0, 0),
        (-1, -1), (-1, 0), (-1, 1), (0, 1), (1, -1), (0, -1), (1, 1), (1, 0),
        (-2, -2), (-2, -1), (-2, 0), (-2, 1),
        (-2, 2), (-1, 2), (0, 2), (1, 2),
        (2, -2), (1, -2), (0, -2), (-1, -2),
        (2, 2), (2, 1), (2, 0), (2, -1),
    ];
    assert_eq!(loaded, expected);
    assert_eq!(world.chunk_count(), 25);

    // Loading again around the same centre finds everything present.
    let again = world.queue_loads(0, 0, 2);
    assert!(again.is_empty());

    let payloads = world.flush_newly_loaded();
    assert_eq!(payloads.len(), 25);
    for (payload, pos) in payloads.iter().zip(expected.iter()) {
        assert_eq!((payload.cx, payload.cz), *pos);
        assert_eq!(payload.sections.len(), 24);
        for section in &payload.sections {
            match section {
                SectionEncoding::SingleValued { block, block_count } => {
                    assert_eq!(*block, BLOCK_AIR);
                    assert_eq!(*block_count, 0);
                }
                SectionEncoding::Direct { .. } => panic!("an all-air section must be single-valued"),
            }
        }
    }
    // The queue is drained.
    assert!(world.flush_newly_loaded().is_empty());
}

#[test]
fn full_send_encodes_direct_form_after_edits() {
    let mut world = World::new(String::from("overworld"), 16);
    assert!(world.try_load_chunk(0, 0));
    world.set_blocks(&vec![((0i64, 0u16, 0i64), STONE)]);
    let payloads = world.flush_newly_loaded();
    assert_eq!(payloads.len(), 1);
    match &payloads[0].sections[0] {
        SectionEncoding::Direct { cells, block_count } => {
            assert_eq!(cells.len(), 4096);
            assert_eq!(cells[0], STONE);
            assert_eq!(cells[1], BLOCK_AIR);
            assert_eq!(*block_count, 1);
        }
        SectionEncoding::SingleValued { .. } => panic!("two runs cannot be single-valued"),
    }
    // The full send cleared the dirty set: no differential update owed.
    let updates = world.flush_updates();
    assert!(updates.iter().all(|(_, _, sections)| sections.iter().all(|u| u.is_none())));
}

#[test]
fn mark_ready_flips_once_and_queues() {
    let mut world = World::new(String::from("overworld"), 64);
    assert!(world.try_load_chunk(3, -2));
    assert!(!world.mark_ready(9, 9));
    assert!(world.mark_ready(3, -2));
    assert!(!world.mark_ready(3, -2));
    assert_eq!(world.take_ready(), vec![(3, -2)]);
    assert!(world.take_ready().is_empty());
}

#[test]
fn chunk_actions_resolve_and_apply() {
    let mut world = World::new(String::from("overworld"), 384);
    assert!(world.try_load_chunk(0, 0));
    let action = WorldChunkAction::SetBlocks {
        blocks: vec![
            ((1, 64, 1), String::from("minecraft:stone"), vec![]),
            ((2, 64, 1), String::from("minecraft:unknown"), vec![]),
        ],
    };
    let resolved = vec![Some(STONE), None];
    let applied = handle_action(&mut world, &action, &resolved);
    assert_eq!(applied.len(), 1);
    assert_eq!(world.get_block(1, 64, 1), Some(STONE));
    assert_eq!(world.get_block(2, 64, 1), Some(BLOCK_AIR));

    let mark = WorldChunkAction::MarkReady { chunk_pos: (0, 0) };
    let none_resolved: Vec<Option<u32>> = vec![];
    let applied = handle_action(&mut world, &mark, &none_resolved);
    assert!(applied.is_empty());
    assert_eq!(world.take_ready(), vec![(0, 0)]);
}
