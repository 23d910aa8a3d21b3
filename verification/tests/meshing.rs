use whole_new_world::bits::bits_repeat;
use whole_new_world::chunk::{Chunk, NeighborChunkSlices};
use whole_new_world::container::VoxelContainer;
use whole_new_world::ivec::UVec3;
use whole_new_world::mesh::generate_mesh;
use whole_new_world::pos::InChunkPos;
use whole_new_world::voxels::Voxel;
use whole_new_world::CHUNK_SQUARE;

fn solid_neighbors() -> NeighborChunkSlices {
    NeighborChunkSlices {
        pos_x: bits_repeat(true, CHUNK_SQUARE as usize),
        pos_y: bits_repeat(true, CHUNK_SQUARE as usize),
        pos_z: bits_repeat(true, CHUNK_SQUARE as usize),
        neg_x: bits_repeat(true, CHUNK_SQUARE as usize),
        neg_y: bits_repeat(true, CHUNK_SQUARE as usize),
        neg_z: bits_repeat(true, CHUNK_SQUARE as usize),
    }
}

fn open_neighbors() -> NeighborChunkSlices {
    NeighborChunkSlices {
        pos_x: bits_repeat(false, CHUNK_SQUARE as usize),
        pos_y: bits_repeat(false, CHUNK_SQUARE as usize),
        pos_z: bits_repeat(false, CHUNK_SQUARE as usize),
        neg_x: bits_repeat(false, CHUNK_SQUARE as usize),
        neg_y: bits_repeat(false, CHUNK_SQUARE as usize),
        neg_z: bits_repeat(false, CHUNK_SQUARE as usize),
    }
}

fn quad_count(inds: usize) -> usize {
    assert_eq!(inds % 6, 0);
    inds / 6
}

#[test]
fn fully_enclosed_solid_chunk_meshes_to_nothing() {
    let chunk = Chunk::from_container(VoxelContainer::from_voxel(Voxel::Stone));
    let mesh = generate_mesh(&chunk, solid_neighbors());
    assert!(mesh.is_none());
}

#[test]
fn single_corner_voxel_yields_six_quads() {
    let mut chunk = Chunk::from_container(VoxelContainer::from_voxel(Voxel::Air));
    chunk.set(InChunkPos::new(UVec3 { x: 0, y: 0, z: 0 }).unwrap(), Voxel::Stone);
    chunk.update_edge_slice_bits();
    let mesh = generate_mesh(&chunk, open_neighbors()).unwrap();
    assert_eq!(quad_count(mesh.inds.len()), 6);
    assert_eq!(mesh.verts.len(), 24);
    assert_eq!(mesh.hacks.len(), 24);
}

#[test]
fn uniform_rectangle_merges_into_single_quads() {
    // A 3 x 2 x 1 slab: each of its six faces is a uniform rectangle of
    // one voxel kind, so the greedy merge must emit exactly one quad per
    // face, not one per voxel.
    let mut chunk = Chunk::from_container(VoxelContainer::from_voxel(Voxel::Air));
    for x in 0..3u32 {
        for y in 0..2u32 {
            chunk.set(InChunkPos::new(UVec3 { x, y, z: 0 }).unwrap(), Voxel::Dirt);
        }
    }
    chunk.update_edge_slice_bits();
    let mesh = generate_mesh(&chunk, open_neighbors()).unwrap();
    assert_eq!(quad_count(mesh.inds.len()), 6);
}

#[test]
fn solid_chunk_with_open_neighbors_meshes_one_quad_per_face() {
    let chunk = Chunk::from_container(VoxelContainer::from_voxel(Voxel::Grass));
    let mesh = generate_mesh(&chunk, open_neighbors()).unwrap();
    assert_eq!(quad_count(mesh.inds.len()), 6);
}

#[test]
fn empty_chunk_meshes_to_nothing() {
    let chunk = Chunk::new_empty();
    let mesh = generate_mesh(&chunk, open_neighbors());
    assert!(mesh.is_none());
}

#[test]
fn mixed_kinds_do_not_merge_across_each_other() {
    // Two adjacent voxels of different kinds on one row: their shared
    // top face direction must produce two quads, not one merged quad.
    let mut chunk = Chunk::from_container(VoxelContainer::from_voxel(Voxel::Air));
    chunk.set(InChunkPos::new(UVec3 { x: 0, y: 0, z: 0 }).unwrap(), Voxel::Stone);
    chunk.set(InChunkPos::new(UVec3 { x: 1, y: 0, z: 0 }).unwrap(), Voxel::Dirt);
    chunk.update_edge_slice_bits();
    let mesh = generate_mesh(&chunk, open_neighbors()).unwrap();
    // ten exposed faces in all: 2x1x1 block has 10 unit faces, and the
    // only mergeable pairs (top, bottom, front, back) are split by the
    // kind change.
    assert_eq!(quad_count(mesh.inds.len()), 10);
}

#[test]
fn boundary_voxel_culled_by_solid_neighbor_plane() {
    // One voxel in the corner, with the negative-z neighbor solid: the
    // face pointing at that neighbor is culled, leaving five quads.
    let mut chunk = Chunk::from_container(VoxelContainer::from_voxel(Voxel::Air));
    chunk.set(InChunkPos::new(UVec3 { x: 0, y: 0, z: 0 }).unwrap(), Voxel::Stone);
    chunk.update_edge_slice_bits();
    let mut neighbors = open_neighbors();
    neighbors.neg_z = bits_repeat(true, CHUNK_SQUARE as usize);
    let mesh = generate_mesh(&chunk, neighbors).unwrap();
    assert_eq!(quad_count(mesh.inds.len()), 5);
}
