use whole_new_world::ivec::IVec3;
use whole_new_world::lod::{LodNeededState, LodPos, LodPosSet, LodWorld};

fn lod(level: u8, x: i32, y: i32, z: i32) -> LodPos {
    LodPos { level, pos: IVec3 { x, y, z } }
}

#[test]
fn test_required_levels_for_loader_level_0() {
    let center_lod0_chunk = IVec3 { x: 0, y: 0, z: 0 };
    let level_half_thicks = vec![1u8];
    let found = LodWorld::required_levels_for_loader(center_lod0_chunk, &level_half_thicks);
    let expected = [
        lod(0, 0, 0, 0),
        lod(0, 1, 0, 0),
        lod(0, 0, 1, 0),
        lod(0, 1, 1, 0),
        lod(0, 0, 0, 1),
        lod(0, 1, 0, 1),
        lod(0, 0, 1, 1),
        lod(0, 1, 1, 1),
    ];

    assert_eq!(found.len(), expected.len());
    for e in expected.iter() {
        assert!(found.contains(*e));
    }
}

#[test]
fn test_required_levels_for_loader_2_levels() {
    let center_lod0_chunk = IVec3 { x: 0, y: 0, z: 0 };
    let level_half_thicks = vec![1u8, 1u8];
    let found = LodWorld::required_levels_for_loader(center_lod0_chunk, &level_half_thicks);
    let expected = [
        lod(0, 0, 0, 0),
        lod(0, 1, 0, 0),
        lod(0, 0, 1, 0),
        lod(0, 1, 1, 0),
        lod(0, 0, 0, 1),
        lod(0, 1, 0, 1),
        lod(0, 0, 1, 1),
        lod(0, 1, 1, 1),
        lod(1, 1, 0, 0),
        lod(1, 0, 1, 0),
        lod(1, 1, 1, 0),
        lod(1, 0, 0, 1),
        lod(1, 1, 0, 1),
        lod(1, 0, 1, 1),
        lod(1, 1, 1, 1),
    ];

    assert_eq!(found.len(), expected.len());
    for e in expected.iter() {
        assert!(found.contains(*e));
    }
}

#[test]
fn test_changes_for_required_levels() {
    // Empty
    let lod_world = LodWorld::new();

    let mut required_chunks = LodPosSet::new();
    for e in [
        lod(0, 0, 0, 0),
        lod(0, 1, 0, 0),
        lod(0, 0, 1, 0),
        lod(0, 1, 1, 0),
        lod(0, 0, 0, 1),
        lod(0, 1, 0, 1),
        lod(0, 0, 1, 1),
        lod(0, 1, 1, 1),
    ] {
        required_chunks.insert(e);
    }

    let found_changes = lod_world.changes_for_required_levels(required_chunks);
    let expected_changes = [
        (lod(0, 0, 0, 0), LodNeededState::Render),
        (lod(0, 1, 0, 0), LodNeededState::Render),
        (lod(0, 0, 1, 0), LodNeededState::Render),
        (lod(0, 1, 1, 0), LodNeededState::Render),
        (lod(0, 0, 0, 1), LodNeededState::Render),
        (lod(0, 1, 0, 1), LodNeededState::Render),
        (lod(0, 0, 1, 1), LodNeededState::Render),
        (lod(0, 1, 1, 1), LodNeededState::Render),
    ];

    assert_eq!(expected_changes.len(), found_changes.len());
    for found in &found_changes {
        assert!(expected_changes.contains(found));
    }
}

#[test]
fn lod_pos_levels_round() {
    let p = lod(0, -5, 3, 9);
    let up = p.to_level(1);
    assert_eq!(up, lod(1, -3, 1, 4));
    let down = lod(2, -1, 1, 3).to_level(0);
    assert_eq!(down, lod(0, -4, 4, 12));
    assert_eq!(lod(0, -5, 3, 9).parent(), lod(1, -3, 1, 4));
    assert_eq!(lod(0, 1, 1, 1).start_child(), None);
    let children = lod(1, 1, -1, 0).children().unwrap();
    assert_eq!(children.len(), 8);
    assert!(children.contains(&lod(0, 2, -2, 0)));
    assert!(children.contains(&lod(0, 3, -1, 1)));
}
