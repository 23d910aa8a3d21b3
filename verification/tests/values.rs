use whole_new_world::axis::{slice_directions, SliceDirection, VoxelAxis};
use whole_new_world::biome::{Biome, BiomeHumidity, BiomeTable, BiomeTemperature};
use whole_new_world::io::{region_file_name, save_chunks_dir, save_regions_dir, saves_dir};
use whole_new_world::ivec::UVec2;
use whole_new_world::pos::{ChunkPos, RegionPos};
use whole_new_world::region::RegionHandler;
use whole_new_world::voxels::Voxel;
use whole_new_world::world::{
    load_or_generate_chunk, FixedChunkWorld, GenerateResult, NeededChunkState, NeededStateChange,
};
use whole_new_world::world_noise::{Chunk2dNoiseValues, WorldNoiseSettings};
use whole_new_world::CHUNK_SQUARE;
use whole_new_world::ivec::{IVec3, UVec3};
use whole_new_world::pos::InChunkPos;

#[test]
fn voxel_culling_and_atlas() {
    assert!(!Voxel::Air.does_cull_as_solid());
    assert!(Voxel::Stone.does_cull_as_solid());
    assert!(Voxel::Grass.does_cull_as_solid());
    assert_eq!(Voxel::Air.atlas_index(), 0);
    assert_eq!(Voxel::Stone.atlas_index(), 1);
    assert_eq!(Voxel::Grass.atlas_index(), 0);
    assert_eq!(Voxel::Dirt.atlas_index(), 2);
}

#[test]
fn axes_negate_and_sign() {
    assert_eq!(VoxelAxis::PosX.negate(), VoxelAxis::NegX);
    assert_eq!(VoxelAxis::NegZ.negate(), VoxelAxis::PosZ);
    assert!(VoxelAxis::PosY.is_positive());
    assert!(!VoxelAxis::NegY.is_positive());
}

#[test]
fn slice_direction_normals() {
    let dirs = slice_directions();
    let normals: Vec<VoxelAxis> = dirs.iter().map(|d| d.normal()).collect();
    assert_eq!(
        normals,
        vec![
            VoxelAxis::PosZ,
            VoxelAxis::NegZ,
            VoxelAxis::PosX,
            VoxelAxis::NegX,
            VoxelAxis::NegY,
            VoxelAxis::PosY,
        ]
    );
}

#[test]
fn slice_transform_mirrors_negative_axes() {
    let toward_pos_z = SliceDirection::new(VoxelAxis::PosX, VoxelAxis::PosY);
    let p = toward_pos_z.transform(4, UVec2 { x: 2, y: 3 }).unwrap();
    assert_eq!(p, UVec3 { x: 2, y: 3, z: 4 });

    let toward_neg_z = SliceDirection::new(VoxelAxis::NegX, VoxelAxis::PosY);
    let p = toward_neg_z.transform(0, UVec2 { x: 0, y: 0 }).unwrap();
    assert_eq!(p, UVec3 { x: 30, y: 0, z: 30 });
}

#[test]
fn biome_names_and_table() {
    let b = Biome::empty_at(BiomeTemperature::AlvarPolar, BiomeHumidity::SuperArid);
    assert_eq!(b.name(), "Polar SuperArid Place");
    assert_eq!(b.temperature(), BiomeTemperature::AlvarPolar);
    assert_eq!(b.humidity(), BiomeHumidity::SuperArid);

    let mut table = BiomeTable::new();
    let custom = Biome::new("Mossy Flats", BiomeTemperature::Montane, BiomeHumidity::Humid);
    table.insert(custom);

    let named = Biome::new("x", BiomeTemperature::PreMontane, BiomeHumidity::SuperHumid);
    assert_eq!(named.name(), "x");
}

#[test]
fn save_paths_compose() {
    assert_eq!(saves_dir("alpha"), "saves/alpha");
    assert_eq!(save_chunks_dir("alpha"), "saves/alpha/chunks");
    assert_eq!(save_regions_dir("alpha"), "saves/alpha/regions");
}

#[test]
fn region_file_names_render_coordinates() {
    assert_eq!(
        region_file_name(RegionPos(IVec3 { x: 0, y: 0, z: 0 })),
        "0_0_0.region.gz"
    );
    assert_eq!(
        region_file_name(RegionPos(IVec3 { x: 12, y: -3, z: 105 })),
        "12_-3_105.region.gz"
    );
    assert_eq!(
        region_file_name(RegionPos(IVec3 { x: -2147483648, y: 2147483647, z: -1 })),
        "-2147483648_2147483647_-1.region.gz"
    );
}

#[test]
fn terrain_bands_follow_the_heightmap() {
    let settings = WorldNoiseSettings::new(42, BiomeTable::new());
    let column = Chunk2dNoiseValues {
        chunk_pos_x: 0,
        chunk_pos_z: 0,
        heightmap: vec![5; CHUNK_SQUARE as usize],
    };
    let chunk = settings.generate_chunk_from_noise(0, &column);
    let at = |x: u32, y: u32, z: u32| {
        chunk.voxels.at(InChunkPos::new(UVec3 { x, y, z }).unwrap())
    };
    // height 5: stone below 3, dirt at 3, grass at 4, air above
    assert_eq!(at(0, 0, 0), Voxel::Stone);
    assert_eq!(at(10, 2, 17), Voxel::Stone);
    assert_eq!(at(10, 3, 17), Voxel::Dirt);
    assert_eq!(at(10, 4, 17), Voxel::Grass);
    assert_eq!(at(10, 5, 17), Voxel::Air);
    assert_eq!(at(30, 30, 30), Voxel::Air);
    assert!(!chunk.edges_dirty);

    // A chunk one level up over the same column is all air.
    let sky = settings.generate_chunk_from_noise(1, &column);
    assert_eq!(sky.voxels.at(InChunkPos::new(UVec3 { x: 0, y: 0, z: 0 }).unwrap()), Voxel::Air);
}

#[test]
fn generation_prefers_persisted_data() {
    let mut region = RegionHandler::new();
    let settings = WorldNoiseSettings::new(7, BiomeTable::new());
    let pos = ChunkPos(IVec3 { x: 2, y: 0, z: 2 });
    let column = Chunk2dNoiseValues {
        chunk_pos_x: 2,
        chunk_pos_z: 2,
        heightmap: vec![1; CHUNK_SQUARE as usize],
    };

    // Nothing persisted: the generator runs.
    let generated = load_or_generate_chunk(&mut region, &settings, pos, &column, None);
    assert_eq!(
        generated.voxels.at(InChunkPos::new(UVec3 { x: 0, y: 0, z: 0 }).unwrap()),
        Voxel::Grass
    );

    // Persist something different at the same position; it wins.
    let mut world = FixedChunkWorld::new();
    world.set_needed(pos, NeededChunkState::Generated);
    let changes = vec![(pos, NeededStateChange::Generate)];
    let _ = world.execute_state_changes(&mut region, &changes);
    let mut stored = whole_new_world::chunk::Chunk::new_empty();
    stored.set(InChunkPos::new(UVec3 { x: 1, y: 1, z: 1 }).unwrap(), Voxel::Stone);
    stored.update_edge_slice_bits();
    let _ = world.collect_finished_tasks(
        None,
        vec![GenerateResult { pos, chunk: stored, new_noise: None }],
        Vec::new(),
    );
    let changes = vec![(pos, NeededStateChange::Delete)];
    let _ = world.execute_state_changes(&mut region, &changes);

    let loaded = load_or_generate_chunk(&mut region, &settings, pos, &column, None);
    assert_eq!(
        loaded.voxels.at(InChunkPos::new(UVec3 { x: 1, y: 1, z: 1 }).unwrap()),
        Voxel::Stone
    );
    assert_eq!(
        loaded.voxels.at(InChunkPos::new(UVec3 { x: 0, y: 0, z: 0 }).unwrap()),
        Voxel::Air
    );
}
