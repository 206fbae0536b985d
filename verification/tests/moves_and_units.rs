use voxelbot::bitset::Bits4096;
use voxelbot::moves::{append_edges, default_is_reached, Edge, IsReachedCtx, MoveData};
use voxelbot::pos::{floor_div_16, section_rem_16, BlockPos, ChunkPos, SectionPos};

#[test]
fn default_reached_is_exact_voxel_equality() {
    let target = BlockPos::new(3, 64, -2);
    let at_target = IsReachedCtx { target, start: BlockPos::new(0, 64, 0), position: target };
    assert!(default_is_reached(at_target));

    let nearby = IsReachedCtx {
        target,
        start: BlockPos::new(0, 64, 0),
        position: BlockPos::new(3, 65, -2),
    };
    assert!(!default_is_reached(nearby));
}

#[test]
fn move_data_dispatches_the_default_rule() {
    let data = MoveData::default_data();
    let target = BlockPos::new(1, 2, 3);
    let ctx = IsReachedCtx { target, start: target, position: target };
    assert!(data.is_reached(ctx));
}

#[test]
fn append_edges_concatenates_in_order() {
    let data = MoveData::default_data();
    let mut out = vec![Edge { target: BlockPos::new(0, 0, 0), data }];
    let contribution = vec![
        Edge { target: BlockPos::new(1, 0, 0), data },
        Edge { target: BlockPos::new(0, 0, 1), data },
    ];
    append_edges(&mut out, &contribution);
    assert_eq!(out.len(), 3);
    assert_eq!(out[0].target, BlockPos::new(0, 0, 0));
    assert_eq!(out[1].target, BlockPos::new(1, 0, 0));
    assert_eq!(out[2].target, BlockPos::new(0, 0, 1));
}

#[test]
fn section_coordinates_floor_toward_negative_infinity() {
    assert_eq!(floor_div_16(0), 0);
    assert_eq!(floor_div_16(15), 0);
    assert_eq!(floor_div_16(16), 1);
    assert_eq!(floor_div_16(31), 1);
    assert_eq!(floor_div_16(-1), -1);
    assert_eq!(floor_div_16(-16), -1);
    assert_eq!(floor_div_16(-17), -2);
    assert_eq!(floor_div_16(i32::MIN), i32::MIN / 16);
    assert_eq!(floor_div_16(i32::MAX), i32::MAX / 16);

    assert_eq!(section_rem_16(-1), 15);
    assert_eq!(section_rem_16(-16), 0);
    assert_eq!(section_rem_16(17), 1);
}

#[test]
fn positions_know_their_chunk_and_section() {
    let p = BlockPos::new(-1, 70, 17);
    assert_eq!(p.chunk(), ChunkPos { x: -1, z: 1 });
    assert_eq!(p.section(), SectionPos { x: -1, y: 4, z: 1 });
    assert_eq!(p.up(2), BlockPos::new(-1, 72, 17));
    assert_eq!(p.down(3), BlockPos::new(-1, 67, 17));
    // Row-major: y * 256 + z * 16 + x over the in-section offsets.
    assert_eq!(p.local_index(), 6 * 256 + 1 * 16 + 15);
}

#[test]
fn bitset_tracks_individual_bits() {
    let mut bits = Bits4096::empty();
    assert!(!bits.get_bit(0));
    assert!(!bits.get_bit(4095));
    bits.set_bit(0);
    bits.set_bit(77);
    bits.set_bit(4095);
    assert!(bits.get_bit(0));
    assert!(bits.get_bit(77));
    assert!(bits.get_bit(4095));
    assert!(!bits.get_bit(76));
    assert!(!bits.get_bit(78));
}
