use whole_new_world::chunk::Chunk;
use whole_new_world::container::VoxelContainer;
use whole_new_world::ivec::{IVec3, UVec3};
use whole_new_world::mesh::generate_mesh;
use whole_new_world::pos::{ChunkPos, InChunkPos};
use whole_new_world::region::RegionHandler;
use whole_new_world::voxels::Voxel;
use whole_new_world::world::{
    ChunkState, ChunkWork, FixedChunkWorld, GenerateResult, NeededChunkState, NeededStateChange,
    RenderResult,
};

fn cp(x: i32, y: i32, z: i32) -> ChunkPos {
    ChunkPos(IVec3 { x, y, z })
}

fn state_of(world: &FixedChunkWorld, p: ChunkPos) -> ChunkState {
    world.chunks.get(p.0).unwrap().state
}

fn needed_of(world: &FixedChunkWorld, p: ChunkPos) -> NeededChunkState {
    world.chunks.get(p.0).unwrap().needed_state
}

/// Runs all generate orders synchronously with empty chunks and feeds
/// the results back.
fn run_generates(world: &mut FixedChunkWorld, orders: Vec<ChunkWork>) {
    let mut results = Vec::new();
    for order in orders {
        match order {
            ChunkWork::Generate { pos, cached_noise: _ } => {
                results.push(GenerateResult { pos, chunk: Chunk::new_empty(), new_noise: None });
            }
            ChunkWork::Render { .. } => panic!("unexpected render order"),
        }
    }
    let (_, leftover) = world.collect_finished_tasks(None, results, Vec::new());
    assert!(leftover.is_empty());
}

#[test]
fn loader_shell_policy_and_first_pass() {
    let mut world = FixedChunkWorld::new();
    let loader = cp(0, 0, 0);
    world.update_needed_chunk_states(loader, 1);

    // 27 chunks tracked: the 26 shell positions need generation only,
    // the center needs rendering.
    assert_eq!(world.chunks.len(), 27);
    assert_eq!(needed_of(&world, cp(0, 0, 0)), NeededChunkState::Rendered);
    for x in -1..=1 {
        for y in -1..=1 {
            for z in -1..=1 {
                let p = cp(x, y, z);
                assert_eq!(state_of(&world, p), ChunkState::Empty);
                if x == 0 && y == 0 && z == 0 {
                    assert_eq!(needed_of(&world, p), NeededChunkState::Rendered);
                } else {
                    assert_eq!(needed_of(&world, p), NeededChunkState::Generated);
                }
            }
        }
    }

    // Every chunk needs generation, closest first.
    let changes = world.required_state_changes(loader, 1);
    assert_eq!(changes.len(), 27);
    assert_eq!(changes[0].0, cp(0, 0, 0));
    for (_, change) in &changes {
        assert_eq!(*change, NeededStateChange::Generate);
    }
}

#[test]
fn change_lists_name_each_position_once() {
    let mut world = FixedChunkWorld::new();
    let loader = cp(0, 0, 0);
    world.update_needed_chunk_states(loader, 2);
    let changes = world.required_state_changes(loader, 2);
    assert_eq!(changes.len(), 125);
    for i in 0..changes.len() {
        for j in (i + 1)..changes.len() {
            assert_ne!(changes[i].0, changes[j].0);
        }
    }
}

#[test]
fn loader_move_issues_exactly_the_needed_actions() {
    let mut world = FixedChunkWorld::new();
    let mut region = RegionHandler::new();
    let loader = cp(0, 0, 0);
    world.update_needed_chunk_states(loader, 1);

    // Generate everything.
    let changes = world.required_state_changes(loader, 1);
    let orders = world.execute_state_changes(&mut region, &changes);
    assert_eq!(orders.len(), 27);
    for (p, _) in &changes {
        assert_eq!(state_of(&world, *p), ChunkState::Generating);
    }
    run_generates(&mut world, orders);
    for (p, _) in &changes {
        assert_eq!(state_of(&world, *p), ChunkState::Generated);
    }

    // Second pass: only the center still needs work (render), nothing
    // else is re-issued.
    let changes = world.required_state_changes(loader, 1);
    assert_eq!(changes.len(), 1);
    assert_eq!(changes[0], (cp(0, 0, 0), NeededStateChange::Render));
    let orders = world.execute_state_changes(&mut region, &changes);
    assert_eq!(orders.len(), 1);
    assert_eq!(state_of(&world, cp(0, 0, 0)), ChunkState::Rendering);
    let mut rendered = Vec::new();
    for order in orders {
        match order {
            ChunkWork::Render { pos, chunk, neighbors } => {
                rendered.push(RenderResult { pos, mesh: generate_mesh(&chunk, neighbors) });
            }
            ChunkWork::Generate { .. } => panic!("unexpected generate order"),
        }
    }
    let _ = world.collect_finished_tasks(Some(loader), Vec::new(), rendered);
    assert_eq!(state_of(&world, cp(0, 0, 0)), ChunkState::Rendered);

    // Move the loader one chunk along x: the plane left behind is
    // deleted, the newly entered plane is generated, the new center is
    // rendered — and nothing already in its needed state is re-issued.
    let loader = cp(1, 0, 0);
    world.update_needed_chunk_states(loader, 1);
    let changes = world.required_state_changes(loader, 1);

    let mut deletes = 0;
    let mut generates = 0;
    let mut renders = 0;
    for (p, change) in &changes {
        match change {
            NeededStateChange::Delete => {
                assert_eq!(p.0.x, -1);
                deletes += 1;
            }
            NeededStateChange::Generate => {
                assert_eq!(p.0.x, 2);
                generates += 1;
            }
            NeededStateChange::Render => {
                assert_eq!(*p, cp(1, 0, 0));
                renders += 1;
            }
        }
    }
    assert_eq!((deletes, generates, renders), (9, 9, 1));
    assert_eq!(changes.len(), 19);
}

#[test]
fn states_only_advance_and_stale_results_are_discarded() {
    let mut world = FixedChunkWorld::new();
    let p = cp(0, 0, 0);
    world.set_needed(p, NeededChunkState::Rendered);
    assert_eq!(state_of(&world, p), ChunkState::Empty);

    // A render result for a chunk that was never dispatched is ignored.
    let (emitted, _) =
        world.collect_finished_tasks(None, Vec::new(), vec![RenderResult { pos: p, mesh: None }]);
    assert!(emitted.is_empty());
    assert_eq!(state_of(&world, p), ChunkState::Empty);

    let mut region = RegionHandler::new();
    let changes = vec![(p, NeededStateChange::Generate)];
    let orders = world.execute_state_changes(&mut region, &changes);
    assert_eq!(orders.len(), 1);
    assert_eq!(state_of(&world, p), ChunkState::Generating);
    run_generates(&mut world, orders);
    assert_eq!(state_of(&world, p), ChunkState::Generated);

    let (_, _) = world.collect_finished_tasks(
        None,
        vec![GenerateResult { pos: p, chunk: Chunk::new_empty(), new_noise: None }],
        Vec::new(),
    );
    assert_eq!(state_of(&world, p), ChunkState::Generated);
}

#[test]
fn at_most_two_meshes_are_integrated_per_call() {
    let mut world = FixedChunkWorld::new();
    let mut region = RegionHandler::new();
    let mut mesh_chunk = Chunk::from_container(VoxelContainer::from_voxel(Voxel::Air));
    mesh_chunk.set(InChunkPos::new(UVec3 { x: 0, y: 0, z: 0 }).unwrap(), Voxel::Stone);
    mesh_chunk.update_edge_slice_bits();

    let mut rendered = Vec::new();
    for i in 0..3 {
        let p = cp(i * 10, 0, 0);
        world.set_needed(p, NeededChunkState::Rendered);
        let changes = vec![(p, NeededStateChange::Generate)];
        let orders = world.execute_state_changes(&mut region, &changes);
        let mut results = Vec::new();
        for order in orders {
            match order {
                ChunkWork::Generate { pos, .. } => results.push(GenerateResult {
                    pos,
                    chunk: mesh_chunk.duplicate(),
                    new_noise: None,
                }),
                ChunkWork::Render { .. } => panic!("unexpected render order"),
            }
        }
        let _ = world.collect_finished_tasks(None, results, Vec::new());
        // force the render state by dispatching a render with ready
        // neighbors
        for n in [
            cp(i * 10 + 1, 0, 0),
            cp(i * 10 - 1, 0, 0),
            cp(i * 10, 1, 0),
            cp(i * 10, -1, 0),
            cp(i * 10, 0, 1),
            cp(i * 10, 0, -1),
        ] {
            world.set_needed(n, NeededChunkState::Generated);
            let changes = vec![(n, NeededStateChange::Generate)];
            let orders = world.execute_state_changes(&mut region, &changes);
            run_generates(&mut world, orders);
        }
        let changes = vec![(p, NeededStateChange::Render)];
        let orders = world.execute_state_changes(&mut region, &changes);
        for order in orders {
            match order {
                ChunkWork::Render { pos, chunk, neighbors } => {
                    rendered.push(RenderResult { pos, mesh: generate_mesh(&chunk, neighbors) });
                }
                ChunkWork::Generate { .. } => panic!("unexpected generate order"),
            }
        }
    }
    assert_eq!(rendered.len(), 3);

    let (emitted, leftover) = world.collect_finished_tasks(Some(cp(0, 0, 0)), Vec::new(), rendered);
    assert_eq!(emitted.len(), 2);
    assert_eq!(leftover.len(), 1);
}

#[test]
fn delete_flushes_to_region_store_and_check_finds_it() {
    let mut world = FixedChunkWorld::new();
    let mut region = RegionHandler::new();
    let p = cp(5, 5, 5);

    // Track and generate a chunk with a recognizable pattern.
    world.set_needed(p, NeededChunkState::Generated);
    let changes = vec![(p, NeededStateChange::Generate)];
    let orders = world.execute_state_changes(&mut region, &changes);
    let mut pattern = Chunk::new_empty();
    pattern.set(InChunkPos::new(UVec3 { x: 7, y: 8, z: 9 }).unwrap(), Voxel::Dirt);
    pattern.update_edge_slice_bits();
    assert_eq!(orders.len(), 1);
    let _ = world.collect_finished_tasks(
        None,
        vec![GenerateResult { pos: p, chunk: pattern, new_noise: None }],
        Vec::new(),
    );
    assert_eq!(state_of(&world, p), ChunkState::Generated);

    // Delete: the voxel data must be flushed to the region store.
    let changes = vec![(p, NeededStateChange::Delete)];
    let _ = world.execute_state_changes(&mut region, &changes);
    assert!(world.chunks.get(p.0).is_none());

    // The store answers from memory, without any terrain generation.
    let found = region.check_for_chunk(p, None).unwrap();
    let idx = InChunkPos::new(UVec3 { x: 7, y: 8, z: 9 }).unwrap();
    assert_eq!(found.at(idx), Voxel::Dirt);
    assert_eq!(found.at(InChunkPos::new(UVec3 { x: 0, y: 0, z: 0 }).unwrap()), Voxel::Air);
}
