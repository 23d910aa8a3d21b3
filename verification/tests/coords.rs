use whole_new_world::ivec::{IVec3, UVec3};
use whole_new_world::pos::{
    div_euclid_i32, rem_euclid_i32, ChunkPos, InChunkPos, InRegionChunkPos, RegionPos, VoxelPos,
};
use whole_new_world::{CHUNK_WIDTH, REGION_WIDTH};

#[test]
fn euclid_division_handles_negatives() {
    assert_eq!(div_euclid_i32(-1, 16), -1);
    assert_eq!(rem_euclid_i32(-1, 16), 15);
    assert_eq!(div_euclid_i32(-16, 16), -1);
    assert_eq!(rem_euclid_i32(-16, 16), 0);
    assert_eq!(div_euclid_i32(-17, 16), -2);
    assert_eq!(rem_euclid_i32(-17, 16), 15);
    assert_eq!(div_euclid_i32(33, 16), 2);
    assert_eq!(rem_euclid_i32(33, 16), 1);
}

#[test]
fn chunk_region_round_trip_including_negatives() {
    for p in [
        ChunkPos(IVec3 { x: 0, y: 0, z: 0 }),
        ChunkPos(IVec3 { x: 5, y: 5, z: 5 }),
        ChunkPos(IVec3 { x: -1, y: -16, z: -17 }),
        ChunkPos(IVec3 { x: 31, y: -33, z: 100 }),
    ] {
        let region = RegionPos::from(p);
        let origin = region.chunk_origin();
        let offset = InRegionChunkPos::from_world(p);
        let rebuilt = ChunkPos(IVec3 {
            x: origin.0.x + offset.pos().x as i32,
            y: origin.0.y + offset.pos().y as i32,
            z: origin.0.z + offset.pos().z as i32,
        });
        assert_eq!(rebuilt, p);
    }
}

#[test]
fn region_of_negative_chunk_floors() {
    let p = ChunkPos(IVec3 { x: -1, y: 0, z: 16 });
    let r = RegionPos::from(p);
    assert_eq!(r, RegionPos(IVec3 { x: -1, y: 0, z: 1 }));
    let v = VoxelPos(IVec3 { x: -1, y: 30, z: 31 });
    let c = ChunkPos::from(v);
    assert_eq!(c, ChunkPos(IVec3 { x: -1, y: 0, z: 1 }));
}

#[test]
fn in_chunk_pos_bounds() {
    assert!(InChunkPos::new(UVec3 { x: 30, y: 30, z: 30 }).is_some());
    assert!(InChunkPos::new(UVec3 { x: CHUNK_WIDTH, y: 0, z: 0 }).is_none());
    let p = InChunkPos::new(UVec3 { x: 1, y: 2, z: 3 }).unwrap();
    assert_eq!(p.index(), (3 * 961 + 2 * 31 + 1) as usize);
}

#[test]
fn in_region_pos_bounds() {
    assert!(InRegionChunkPos::new(UVec3 { x: 15, y: 15, z: 15 }).is_some());
    assert!(InRegionChunkPos::new(UVec3 { x: REGION_WIDTH, y: 0, z: 0 }).is_none());
    let p = InRegionChunkPos::from_world(ChunkPos(IVec3 { x: -1, y: 0, z: 17 }));
    assert_eq!(p.pos(), UVec3 { x: 15, y: 0, z: 1 });
}

#[test]
fn distance_squared_is_exact() {
    let a = IVec3 { x: 1, y: 2, z: 3 };
    let b = IVec3 { x: -2, y: 4, z: 3 };
    assert_eq!(a.distance_squared(b), 13);
    let far_a = IVec3 { x: i32::MIN, y: 0, z: 0 };
    let far_b = IVec3 { x: i32::MAX, y: 0, z: 0 };
    let d = far_a.distance_squared(far_b);
    assert_eq!(d, (u32::MAX as i128) * (u32::MAX as i128));
}
