use whole_new_world::codec::{decode_container, encode_container, REGION_FORMAT_VERSION};
use whole_new_world::container::VoxelContainer;
use whole_new_world::ivec::{IVec3, UVec3};
use whole_new_world::pos::{ChunkPos, InChunkPos, InRegionChunkPos, RegionPos};
use whole_new_world::region::{
    decode_region, encode_region, region_from_file_bytes, region_to_file_bytes, RegionHandler,
    VoxelRegion,
};
use whole_new_world::voxels::Voxel;
use whole_new_world::CHUNK_CUBE;

fn patterned_container() -> VoxelContainer {
    let mut c = VoxelContainer::from_voxel(Voxel::Air);
    for x in 0..31u32 {
        for y in 0..7u32 {
            let pos = InChunkPos::new(UVec3 { x, y, z: (x + y) % 31 }).unwrap();
            let v = match (x + y) % 3 {
                0 => Voxel::Stone,
                1 => Voxel::Dirt,
                _ => Voxel::Grass,
            };
            c.set(pos, v);
        }
    }
    c
}

#[test]
fn container_round_trip_all_air() {
    let c = VoxelContainer::from_voxel(Voxel::Air);
    let bytes = encode_container(&c);
    assert_eq!(bytes.len(), CHUNK_CUBE as usize);
    let back = decode_container(&bytes, 0).unwrap();
    assert_eq!(back.0, c.0);
}

#[test]
fn container_round_trip_all_solid() {
    let c = VoxelContainer::from_voxel(Voxel::Stone);
    let bytes = encode_container(&c);
    let back = decode_container(&bytes, 0).unwrap();
    assert_eq!(back.0, c.0);
}

#[test]
fn container_round_trip_pattern() {
    let c = patterned_container();
    let bytes = encode_container(&c);
    let back = decode_container(&bytes, 0).unwrap();
    assert_eq!(back.0, c.0);
}

#[test]
fn container_rejects_invalid_byte() {
    let c = VoxelContainer::from_voxel(Voxel::Air);
    let mut bytes = encode_container(&c);
    bytes[17] = 9;
    assert!(decode_container(&bytes, 0).is_none());
}

#[test]
fn voxel_byte_codec() {
    assert_eq!(Voxel::Stone.encode(), 1);
    assert_eq!(Voxel::decode(1), Some(Voxel::Stone));
    assert_eq!(Voxel::decode(3), Some(Voxel::Dirt));
    assert_eq!(Voxel::decode(4), None);
}

#[test]
fn from_voxels_needs_exact_length() {
    assert!(VoxelContainer::from_voxels(vec![Voxel::Air; 5]).is_none());
    assert!(VoxelContainer::from_voxels(vec![Voxel::Air; CHUNK_CUBE as usize]).is_some());
}

#[test]
fn region_round_trip_raw_and_gzipped() {
    let mut region = VoxelRegion::new_empty();
    let slot = InRegionChunkPos::new(UVec3 { x: 3, y: 0, z: 15 }).unwrap();
    region.set_chunk(slot, Some(patterned_container()));

    let raw = encode_region(&region);
    assert_eq!(raw[0], REGION_FORMAT_VERSION);
    let back = decode_region(&raw).unwrap();
    assert_eq!(back.chunk(slot).unwrap().0, patterned_container().0);

    let file = region_to_file_bytes(&region);
    // compression actually happened: a gzip stream starts with its magic
    assert_eq!(file[0], 0x1f);
    assert_eq!(file[1], 0x8b);
    let back2 = region_from_file_bytes(&file).unwrap();
    assert_eq!(back2.chunk(slot).unwrap().0, patterned_container().0);
}

#[test]
fn region_decode_rejects_garbage() {
    assert!(decode_region(&Vec::new()).is_none());
    assert!(decode_region(&vec![7u8, 0, 0]).is_none());
    let region = VoxelRegion::new_empty();
    let mut raw = encode_region(&region);
    raw.push(0);
    assert!(decode_region(&raw).is_none());
    assert!(region_from_file_bytes(&vec![1u8, 2, 3]).is_none());
}

#[test]
fn handler_stores_and_finds_chunks() {
    let mut handler = RegionHandler::new();
    let pos = ChunkPos(IVec3 { x: -3, y: 8, z: 21 });
    assert!(handler.chunk(pos).is_none());
    handler.set_chunk(pos, Some(patterned_container()));
    assert_eq!(handler.chunk(pos).unwrap().0, patterned_container().0);
    let other = ChunkPos(IVec3 { x: -4, y: 8, z: 21 });
    assert!(handler.chunk(other).is_none());
    let region_pos = RegionPos::from(pos);
    assert!(handler.region(region_pos).is_some());
}

#[test]
fn check_for_chunk_falls_back_to_empty_on_bad_bytes() {
    let mut handler = RegionHandler::new();
    let pos = ChunkPos(IVec3 { x: 100, y: 0, z: 0 });
    assert!(handler.check_for_chunk(pos, Some(vec![9u8, 9, 9])).is_none());
}

#[test]
fn check_for_chunk_reads_provided_file_bytes() {
    let mut region = VoxelRegion::new_empty();
    let pos = ChunkPos(IVec3 { x: 5, y: 5, z: 5 });
    region.set_chunk(InRegionChunkPos::from_world(pos), Some(patterned_container()));
    let file = region_to_file_bytes(&region);

    let mut handler = RegionHandler::new();
    let found = handler.check_for_chunk(pos, Some(file));
    assert_eq!(found.unwrap().0, patterned_container().0);
}
