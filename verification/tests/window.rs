use std::sync::Arc;

use dd_terrain::chunk::{BlockData, BlockPosition, Chunk};
use dd_terrain::chunk_position::ChunkPosition;
use dd_terrain::common::BlockType;
use dd_terrain::discrete::{
    chunk_index, chunks_to_load, get_difference, inner_chunk_indices, key_of, offset_chunks,
    window_positions, ChunkChange, ChunkSource, WorkerReport, World,
};
use dd_terrain::mesh::Mesh;

fn center() -> ChunkPosition {
    ChunkPosition { region_x: 0, region_z: -1, chunk_x: 3, chunk_z: 30 }
}

fn empty_chunks(positions: &[ChunkPosition]) -> Vec<Arc<Chunk>> {
    positions.iter().map(|position| Arc::new(Chunk::new(*position))).collect()
}

fn window(center: ChunkPosition) -> World<char> {
    World::new(center, empty_chunks(&window_positions(center)))
}

fn positions(world: &World<char>) -> Vec<ChunkPosition> {
    world.chunks.iter().map(|chunk| chunk.position).collect()
}

fn shows_its_surroundings(world: &World<char>) -> bool {
    (0..100).all(|i| {
        let (x, z) = ((i % 10) as i32, (i / 10) as i32);
        world.chunks[i].position == world.center.offset(x - 5, z - 5)
    })
}

fn move_to(world: &mut World<char>, target: ChunkPosition) -> bool {
    let asked = world.update_chunk_data(target, WorkerReport::Idle);
    assert!(!asked.world_data_updated);
    let loaded = empty_chunks(&asked.to_load.unwrap());
    world.update_chunk_data(target, WorkerReport::Finished(loaded)).world_data_updated
}

fn triangle(name: char) -> Mesh<char> {
    Mesh { vertices: vec![name; 3], indices: vec![0, 1, 2] }
}

#[test]
fn difference_is_the_direction_on_each_axis() {
    let here = center();
    assert_eq!(get_difference(&here, &here), (0, 0));
    assert_eq!(get_difference(&here, &here.offset(1, -1)), (1, -1));
    assert_eq!(get_difference(&here, &here.offset(-1, 0)), (-1, 0));
    assert_eq!(get_difference(&here, &here.offset(-4, 2)), (-1, 1));
    assert_eq!(get_difference(&here, &here.offset(29, 500)), (1, 1));
    assert_eq!(get_difference(&here, &here.offset(-1000, 1)), (-1, 1));
}

#[test]
fn slots_are_numbered_row_after_row() {
    assert_eq!(chunk_index(0, 0), 0);
    assert_eq!(chunk_index(9, 0), 9);
    assert_eq!(chunk_index(0, 1), 10);
    assert_eq!(chunk_index(9, 9), 99);
}

#[test]
fn the_inner_slots_leave_out_the_rim() {
    let inner = inner_chunk_indices();
    assert_eq!(inner.len(), 64);
    // Column after column, the rows running fastest.
    assert_eq!(&inner[..9], &[11, 21, 31, 41, 51, 61, 71, 81, 12]);
    assert_eq!(inner[63], 88);
    for index in 0..100 {
        let (x, z) = (index % 10, index / 10);
        let off_rim = x > 0 && x < 9 && z > 0 && z < 9;
        assert_eq!(inner.contains(&index), off_rim);
    }
}

#[test]
fn window_positions_surround_the_centre() {
    let positions = window_positions(center());
    assert_eq!(positions.len(), 100);
    assert_eq!(positions[chunk_index(5, 5)], center());
    assert_eq!(positions[0], center().offset(-5, -5));
    assert_eq!(positions[99], center().offset(4, 4));
    assert_eq!(
        positions[chunk_index(2, 7)],
        ChunkPosition { region_x: 0, region_z: 0, chunk_x: 0, chunk_z: 0 }
    );
    assert_eq!(
        positions[chunk_index(1, 6)],
        ChunkPosition { region_x: -1, region_z: -1, chunk_x: 31, chunk_z: 31 }
    );
}

#[test]
fn a_new_world_shows_its_surroundings_and_has_no_meshes() {
    let world = window(center());
    assert_eq!(world.center, center());
    assert!(shows_its_surroundings(&world));
    assert_eq!(world.chunk_meshes.len(), 100);
    assert!(world.chunk_meshes.iter().all(|mesh| mesh.is_none()));
    assert!(world.meshes_being_built.is_empty());
    assert!(world.world_change.is_none());
}

#[test]
fn a_move_along_x_trades_ninety_chunks_and_loads_ten() {
    let world = window(center());
    let changes = offset_chunks(&world.chunks, (1, 0));
    assert_eq!(changes.len(), 100);
    // The trades start in the column that the window leaves behind.
    assert_eq!(changes[0], ChunkChange(0, ChunkSource::Reference(1)));
    assert_eq!(changes[1], ChunkChange(10, ChunkSource::Reference(11)));
    assert_eq!(changes[10], ChunkChange(1, ChunkSource::Reference(2)));
    assert_eq!(changes[89], ChunkChange(98, ChunkSource::Reference(99)));
    let before = positions(&world);
    for (z, change) in changes[90..].iter().enumerate() {
        let slot = chunk_index(9, z);
        assert_eq!(*change, ChunkChange(slot, ChunkSource::Direct(before[slot].offset(1, 0))));
    }
}

#[test]
fn a_move_backwards_runs_through_the_window_in_reverse() {
    let world = window(center());
    let changes = offset_chunks(&world.chunks, (0, -1));
    assert_eq!(changes.len(), 100);
    assert_eq!(changes[0], ChunkChange(90, ChunkSource::Reference(80)));
    assert_eq!(changes[1], ChunkChange(80, ChunkSource::Reference(70)));
    assert_eq!(changes[9], ChunkChange(91, ChunkSource::Reference(81)));
    let before = positions(&world);
    for (x, change) in changes[90..].iter().enumerate() {
        assert_eq!(*change, ChunkChange(x, ChunkSource::Direct(before[x].offset(0, -1))));
    }
}

#[test]
fn a_diagonal_move_loads_the_corner_once() {
    let world = window(center());
    let changes = offset_chunks(&world.chunks, (1, -1));
    assert_eq!(changes.len(), 81 + 19);
    assert_eq!(changes[0], ChunkChange(90, ChunkSource::Reference(81)));
    let loads = chunks_to_load(&changes);
    assert_eq!(loads.len(), 19);
    let mut slots: Vec<usize> = changes[81..].iter().map(|change| change.0).collect();
    // The column that the window moves into, then the rest of the row.
    let mut expected: Vec<usize> = (0..10).map(|z| chunk_index(9, z)).collect();
    expected.extend((0..9).map(|x| chunk_index(x, 0)));
    assert_eq!(slots, expected);
    slots.sort();
    slots.dedup();
    assert_eq!(slots.len(), 19);
}

#[test]
fn no_move_trades_each_chunk_with_itself_and_loads_nothing() {
    let world = window(center());
    let changes = offset_chunks(&world.chunks, (0, 0));
    assert_eq!(changes.len(), 100);
    for change in &changes {
        assert_eq!(change.1, ChunkSource::Reference(change.0));
    }
    assert!(chunks_to_load(&changes).is_empty());
}

#[test]
fn a_move_along_one_axis_loads_ten_chunks_and_a_diagonal_one_nineteen() {
    let world = window(center());
    for (dx, dz) in [(1, 0), (-1, 0), (0, 1), (0, -1)] {
        assert_eq!(chunks_to_load(&offset_chunks(&world.chunks, (dx, dz))).len(), 10);
    }
    for (dx, dz) in [(1, 1), (1, -1), (-1, 1), (-1, -1)] {
        assert_eq!(chunks_to_load(&offset_chunks(&world.chunks, (dx, dz))).len(), 19);
    }
}

#[test]
fn a_viewer_in_the_centre_chunk_asks_for_nothing() {
    let mut world = window(center());
    let outcome = world.update_chunk_data(center(), WorkerReport::Idle);
    assert!(!outcome.world_data_updated);
    assert!(outcome.to_build.is_empty());
    assert!(outcome.to_load.is_none());
    assert!(world.world_change.is_none());
}

#[test]
fn a_viewer_in_the_next_chunk_sets_a_move_under_way() {
    let mut world = window(center());
    let before = positions(&world);
    let target = center().offset(0, 1);
    let outcome = world.update_chunk_data(target, WorkerReport::Idle);
    assert!(!outcome.world_data_updated);
    assert!(outcome.to_build.is_empty());
    let to_load = outcome.to_load.unwrap();
    let expected: Vec<ChunkPosition> =
        (0..10).map(|x| before[chunk_index(x, 9)].offset(0, 1)).collect();
    assert_eq!(to_load, expected);
    // Nothing has moved yet.
    assert_eq!(world.center, center());
    assert_eq!(positions(&world), before);
    let change = world.world_change.as_ref().unwrap();
    assert_eq!(change.center, target);
    assert_eq!(change.direction, (0, 1));
    assert_eq!(change.changes, offset_chunks(&world.chunks, (0, 1)));
}

#[test]
fn a_running_worker_leaves_everything_as_it_is() {
    let mut world = window(center());
    let target = center().offset(1, 1);
    world.update_chunk_data(target, WorkerReport::Idle);
    let before = positions(&world);
    let outcome = world.update_chunk_data(center().offset(-1, 0), WorkerReport::Running);
    assert!(!outcome.world_data_updated);
    assert!(outcome.to_build.is_empty());
    assert!(outcome.to_load.is_none());
    assert_eq!(positions(&world), before);
    assert_eq!(world.world_change.as_ref().unwrap().center, target);
}

#[test]
fn the_loaded_chunks_complete_the_move() {
    for (dx, dz) in [(1, 0), (-1, 0), (0, 1), (0, -1), (1, 1), (1, -1), (-1, 1), (-1, -1)] {
        let mut world = window(center());
        let before = positions(&world);
        let target = center().offset(dx, dz);
        assert!(move_to(&mut world, target));
        assert_eq!(world.center, target);
        assert!(world.world_change.is_none());
        assert!(shows_its_surroundings(&world));
        for i in 0..100 {
            assert_eq!(world.chunks[i].position, before[i].offset(dx, dz));
        }
    }
}

#[test]
fn the_window_follows_a_walk() {
    let mut world = window(center());
    let walk = [(1, 0), (1, 1), (0, 1), (-1, 1), (-1, 0), (-1, -1), (0, -1), (1, -1), (1, 1)];
    let mut target = center();
    for round in 0..40 {
        let (dx, dz) = walk[round % walk.len()];
        target = target.offset(dx, dz);
        assert!(move_to(&mut world, target));
        assert_eq!(world.center, target);
        assert!(shows_its_surroundings(&world));
    }
}

#[test]
fn chunks_that_stay_are_the_same_chunks() {
    let mut chunks = Vec::new();
    for (i, position) in window_positions(center()).iter().enumerate() {
        let mut chunk = Chunk::new(*position);
        chunk.push_block(i % 16, i / 16, 0, BlockType::Stone);
        chunks.push(Arc::new(chunk));
    }
    let mut world: World<char> = World::new(center(), chunks);
    let snapshot = world.get_chunks();
    assert!(move_to(&mut world, center().offset(1, 0)));
    for z in 0..10 {
        for x in 0..9 {
            assert!(Arc::ptr_eq(&world.chunks[chunk_index(x, z)], &snapshot[chunk_index(x + 1, z)]));
        }
        let loaded = &world.chunks[chunk_index(9, z)];
        assert!(snapshot.iter().all(|old| !Arc::ptr_eq(old, loaded)));
        assert!(loaded.get_block_data().is_empty());
    }
    // The snapshot is what the window was.
    for (i, chunk) in snapshot.iter().enumerate() {
        assert_eq!(chunk.get_block(i % 16, 0, i / 16), BlockType::Stone);
    }
}

#[test]
fn after_a_move_the_inner_meshes_are_picked_for_building() {
    let mut world = window(center());
    let target = center().offset(1, 0);
    let asked = world.update_chunk_data(target, WorkerReport::Idle);
    let loaded = empty_chunks(&asked.to_load.unwrap());
    let outcome = world.update_chunk_data(target, WorkerReport::Finished(loaded));
    assert!(outcome.world_data_updated);
    assert!(outcome.to_load.is_none());
    assert_eq!(outcome.to_build, inner_chunk_indices());
    assert_eq!(world.meshes_being_built.len(), 64);
    for index in inner_chunk_indices() {
        assert!(world.is_being_built(world.chunks[index].position));
    }
}

#[test]
fn a_viewer_who_walks_on_sets_the_next_move_under_way_at_once() {
    let mut world = window(center());
    let first = center().offset(1, 0);
    let second = first.offset(1, 0);
    let asked = world.update_chunk_data(first, WorkerReport::Idle);
    let loaded = empty_chunks(&asked.to_load.unwrap());
    let outcome = world.update_chunk_data(second, WorkerReport::Finished(loaded));
    assert!(outcome.world_data_updated);
    assert_eq!(world.center, first);
    assert_eq!(world.world_change.as_ref().unwrap().center, second);
    assert_eq!(outcome.to_load.unwrap().len(), 10);
    assert!(shows_its_surroundings(&world));
}

#[test]
fn a_dead_worker_gives_the_move_up() {
    let mut world = window(center());
    let before = positions(&world);
    let target = center().offset(-1, 1);
    world.update_chunk_data(target, WorkerReport::Idle);
    let outcome = world.update_chunk_data(target, WorkerReport::Panicked);
    assert!(!outcome.world_data_updated);
    assert!(outcome.to_build.is_empty());
    assert_eq!(world.center, center());
    assert_eq!(positions(&world), before);
    // The move is asked for again.
    assert_eq!(outcome.to_load.unwrap().len(), 19);
    assert_eq!(world.world_change.as_ref().unwrap().center, target);
}

#[test]
fn chunks_that_were_not_asked_for_give_the_move_up() {
    let mut world = window(center());
    let before = positions(&world);
    let target = center().offset(1, 0);
    let asked = world.update_chunk_data(target, WorkerReport::Idle);
    let mut wrong = asked.to_load.unwrap();
    wrong.swap(0, 1);
    let outcome = world.update_chunk_data(center(), WorkerReport::Finished(empty_chunks(&wrong)));
    assert!(!outcome.world_data_updated);
    assert_eq!(positions(&world), before);
    assert!(world.world_change.is_none());
    let too_few = world.update_chunk_data(target, WorkerReport::Idle).to_load.unwrap();
    assert!(!world.integrate_world_change(&empty_chunks(&too_few[..9])));
    assert!(world.world_change.is_none());
    assert_eq!(positions(&world), before);
}

#[test]
fn integrating_without_a_move_changes_nothing() {
    let mut world = window(center());
    let before = positions(&world);
    assert!(!world.integrate_world_change(&Vec::new()));
    assert_eq!(positions(&world), before);
    assert_eq!(world.center, center());
}

#[test]
fn a_window_at_the_last_region_does_not_move_beyond_it() {
    let edge = ChunkPosition { region_x: i32::MAX, region_z: 0, chunk_x: 27, chunk_z: 0 };
    let mut world = window(edge);
    assert_eq!(world.chunks[chunk_index(9, 0)].position.chunk_x, 31);
    let beyond = ChunkPosition { region_x: i32::MAX, region_z: 0, chunk_x: 28, chunk_z: 0 };
    let outcome = world.update_chunk_data(beyond, WorkerReport::Idle);
    assert!(outcome.to_load.is_none());
    assert!(world.world_change.is_none());
    // Away from the last region it moves as ever.
    assert!(move_to(&mut world, edge.offset(-1, 0)));
    assert!(shows_its_surroundings(&world));
}

#[test]
fn dispatch_picks_each_inner_slot_once() {
    let mut world = window(center());
    assert_eq!(world.dispatch_mesh_builder(), inner_chunk_indices());
    assert_eq!(world.meshes_being_built.len(), 64);
    assert!(world.dispatch_mesh_builder().is_empty());
    assert_eq!(world.meshes_being_built.len(), 64);
}

#[test]
fn a_built_mesh_goes_to_the_slot_of_its_chunk() {
    let mut world = window(center());
    world.dispatch_mesh_builder();
    let position = world.chunks[chunk_index(4, 6)].position;
    assert_eq!(world.integrate_built_mesh(triangle('m'), position), Some(chunk_index(4, 6)));
    assert_eq!(world.chunk_meshes[chunk_index(4, 6)].as_ref().unwrap().vertices, vec!['m'; 3]);
    assert!(!world.is_being_built(position));
    assert_eq!(world.meshes_being_built.len(), 63);
    assert!(world.dispatch_mesh_builder().is_empty());
}

#[test]
fn a_mesh_for_a_chunk_that_has_left_is_dropped() {
    let mut world = window(center());
    world.dispatch_mesh_builder();
    let gone = center().offset(30, 30);
    assert_eq!(world.integrate_built_mesh(triangle('m'), gone), None);
    assert!(world.chunk_meshes.iter().all(|mesh| mesh.is_none()));
    assert_eq!(world.meshes_being_built.len(), 64);
}

#[test]
fn a_released_build_is_picked_again() {
    let mut world = window(center());
    world.dispatch_mesh_builder();
    let position = world.chunks[chunk_index(1, 1)].position;
    world.release_build(position);
    assert!(!world.is_being_built(position));
    assert_eq!(world.dispatch_mesh_builder(), vec![chunk_index(1, 1)]);
    assert!(world.is_being_built(position));
}

#[test]
fn meshes_move_with_their_chunks() {
    let mut world = window(center());
    world.dispatch_mesh_builder();
    let kept = world.chunks[chunk_index(5, 5)].position;
    let lost = world.chunks[chunk_index(1, 5)].position;
    world.integrate_built_mesh(triangle('k'), kept);
    world.integrate_built_mesh(triangle('l'), lost);
    let target = center().offset(1, 0);
    let asked = world.update_chunk_data(target, WorkerReport::Idle);
    let loaded = empty_chunks(&asked.to_load.unwrap());
    let outcome = world.update_chunk_data(target, WorkerReport::Finished(loaded));
    assert_eq!(world.chunk_meshes[chunk_index(4, 5)].as_ref().unwrap().vertices, vec!['k'; 3]);
    assert_eq!(world.chunk_meshes[chunk_index(0, 5)].as_ref().unwrap().vertices, vec!['l'; 3]);
    assert!(world.chunk_meshes[chunk_index(5, 5)].is_none());
    assert!(world.chunk_meshes[chunk_index(9, 5)].is_none());
    // The column that came into the inner part is picked for building; the
    // chunks whose meshes are under way or done are not.
    let expected: Vec<usize> = (1..9).map(|z| chunk_index(8, z)).collect();
    assert_eq!(outcome.to_build, expected);
}

#[test]
fn the_smooth_mesh_holds_the_inner_meshes_in_the_order_of_their_slots() {
    let mut world = window(center());
    assert!(world.get_smooth_mesh().vertices.is_empty());
    for (name, (x, z)) in [('a', (8, 8)), ('b', (1, 1)), ('c', (1, 2)), ('d', (2, 1))] {
        let position = world.chunks[chunk_index(x, z)].position;
        world.integrate_built_mesh(triangle(name), position);
    }
    // A mesh on the rim is not shown.
    let rim = world.chunks[chunk_index(0, 3)].position;
    world.integrate_built_mesh(triangle('r'), rim);
    let merged = world.get_smooth_mesh();
    let names: Vec<char> = merged.vertices.iter().step_by(3).copied().collect();
    assert_eq!(names, vec!['b', 'c', 'd', 'a']);
    assert_eq!(merged.indices, vec![0, 1, 2, 3, 4, 5, 6, 7, 8, 9, 10, 11]);
}

#[test]
fn rebuilding_throws_the_meshes_away() {
    let mut world = window(center());
    world.dispatch_mesh_builder();
    let done = world.chunks[chunk_index(3, 3)].position;
    world.integrate_built_mesh(triangle('m'), done);
    assert_eq!(world.rebuild_all_meshes(), vec![chunk_index(3, 3)]);
    assert!(world.chunk_meshes.iter().all(|mesh| mesh.is_none()));
    assert_eq!(world.meshes_being_built.len(), 64);
}

#[test]
fn blocks_are_found_by_chunk_and_place() {
    let mut chunks = Vec::new();
    for position in window_positions(center()) {
        let mut chunk = Chunk::new(position);
        if position == center() {
            chunk.push_block(3, 4, -5, BlockType::Ore);
        }
        chunks.push(Arc::new(chunk));
    }
    let world: World<char> = World::new(center(), chunks);
    assert_eq!(world.find_chunk(center()), Some(chunk_index(5, 5)));
    assert_eq!(world.find_chunk(center().offset(5, 0)), None);
    assert_eq!(world.get_block(center(), 3, -5, 4), BlockType::Ore);
    assert_eq!(world.get_block(center(), 3, -4, 4), BlockType::Air);
    assert_eq!(world.get_block(center().offset(1, 0), 3, -5, 4), BlockType::Air);
    assert_eq!(world.get_block(center().offset(100, 0), 3, -5, 4), BlockType::Air);
}

#[test]
fn block_lists_run_through_the_slots() {
    let mut chunks = Vec::new();
    for (i, position) in window_positions(center()).iter().enumerate() {
        let mut chunk = Chunk::new(*position);
        if i == 3 || i == 57 {
            chunk.push_block(8, 8, 1, BlockType::Wood);
            chunk.push_block(8, 8, 2, BlockType::Stone);
            chunk.build_surface();
        }
        chunks.push(Arc::new(chunk));
    }
    let world: World<char> = World::new(center(), chunks);
    let (x3, z3) = world.chunks[3].position.get_global_position();
    let (x57, z57) = world.chunks[57].position.get_global_position();
    let block = |x: i64, y: i64, z: i64, material: BlockType| BlockData {
        offset: BlockPosition { x: x + 8, y, z: z + 8 },
        material,
    };
    let both = vec![
        block(x3, 1, z3, BlockType::Wood),
        block(x3, 2, z3, BlockType::Stone),
        block(x57, 1, z57, BlockType::Wood),
        block(x57, 2, z57, BlockType::Stone),
    ];
    assert_eq!(world.get_surface_block_data(), both);
    assert_eq!(world.get_block_data(), both);
    assert_eq!(
        world.get_rigid_blocks_data(),
        vec![block(x3, 1, z3, BlockType::Wood), block(x57, 1, z57, BlockType::Wood)]
    );
}

#[test]
fn every_position_has_a_number_of_its_own() {
    let mut keys = std::collections::HashSet::new();
    let regions = [i32::MIN, -2, -1, 0, 1, 2, i32::MAX];
    for region_x in regions {
        for region_z in regions {
            for chunk_x in [0, 1, 30, 31] {
                for chunk_z in [0, 1, 30, 31] {
                    let position = ChunkPosition { region_x, region_z, chunk_x, chunk_z };
                    assert!(keys.insert(key_of(&position)));
                }
            }
        }
    }
    let first = ChunkPosition { region_x: i32::MIN, region_z: i32::MIN, chunk_x: 0, chunk_z: 0 };
    assert_eq!(key_of(&first), 0);
    let one = ChunkPosition { region_x: i32::MIN, region_z: i32::MIN, chunk_x: 1, chunk_z: 2 };
    assert_eq!(key_of(&one), 34);
    let next = ChunkPosition { region_x: i32::MIN, region_z: i32::MIN + 1, chunk_x: 0, chunk_z: 0 };
    assert_eq!(key_of(&next), 1024);
}

#[test]
fn only_the_chunks_of_a_batch_are_being_built() {
    let mut world = window(center());
    assert!(!world.is_being_built(center()));
    let batch = world.dispatch_mesh_builder();
    for index in 0..100 {
        let position = world.chunks[index].position;
        assert_eq!(world.is_being_built(position), batch.contains(&index));
    }
    assert!(!world.is_being_built(center().offset(50, 50)));
}
