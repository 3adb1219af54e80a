use blipwind::grid::{Dir3, Grid3, Point3, Vector3};
use blipwind::level::{Input, Level, LevelSpec};
use blipwind::machine::{BlipKind, Block, Machine, PlacedBlock, SavedMachine};

fn pipe_x() -> PlacedBlock {
    PlacedBlock {
        rotation_xy: 0,
        block: Block::Pipe(Dir3::XPos, Dir3::XNeg),
    }
}

fn solid() -> PlacedBlock {
    PlacedBlock {
        rotation_xy: 0,
        block: Block::Solid,
    }
}

/// The grid-arena consistency of a machine, checked by observation: every
/// listed block is found again under its position and index, both ways.
fn check_consistency(m: &Machine) {
    for (i, (p, pb)) in m.iter_blocks() {
        assert_eq!(m.get_block_at_pos(&p), Some((i, pb)));
        assert_eq!(m.block_pos_at_index(i), p);
    }
}

#[test]
fn grid3_bounds_checked() {
    let g: Grid3<Option<usize>> = Grid3::new(Vector3::new(2, 2, 2), None);
    assert!(g.is_valid_pos(&Point3::new(0, 0, 0)));
    assert!(g.is_valid_pos(&Point3::new(1, 1, 1)));
    assert!(!g.is_valid_pos(&Point3::new(2, 0, 0)));
    assert!(!g.is_valid_pos(&Point3::new(0, -1, 0)));
    assert_eq!(g.get(&Point3::new(1, 1, 1)), Some(None));
    assert_eq!(g.get(&Point3::new(5, 0, 0)), None);
}

#[test]
fn boundary_rejected_on_every_axis() {
    let m = Machine::new_sandbox(Vector3::new(3, 4, 5));
    assert!(m.is_valid_pos(&Point3::new(0, 0, 0)));
    assert!(m.is_valid_pos(&Point3::new(2, 3, 4)));
    assert!(!m.is_valid_pos(&Point3::new(-1, 0, 0)));
    assert!(!m.is_valid_pos(&Point3::new(3, 0, 0)));
    assert!(!m.is_valid_pos(&Point3::new(0, -1, 0)));
    assert!(!m.is_valid_pos(&Point3::new(0, 4, 0)));
    assert!(!m.is_valid_pos(&Point3::new(0, 0, -1)));
    assert!(!m.is_valid_pos(&Point3::new(0, 0, 5)));
    // Rejection happens before any mutation: the machine is untouched.
    assert_eq!(m.num_blocks(), 0);
}

#[test]
fn valid_layers() {
    let m = Machine::new_sandbox(Vector3::new(2, 2, 3));
    assert!(m.is_valid_layer(0));
    assert!(m.is_valid_layer(2));
    assert!(!m.is_valid_layer(3));
    assert!(!m.is_valid_layer(-1));
}

#[test]
fn set_get_remove_round_trip() {
    let mut m = Machine::new_sandbox(Vector3::new(3, 3, 1));
    let p = Point3::new(1, 2, 0);
    assert_eq!(m.get_block_at_pos(&p), None);
    m.set_block_at_pos(&p, Some(pipe_x()));
    assert_eq!(m.num_blocks(), 1);
    assert_eq!(m.get_block_at_pos(&p), Some((0, pipe_x())));
    check_consistency(&m);
    let removed = m.remove_at_pos(&p);
    assert_eq!(removed, Some((0, pipe_x())));
    assert_eq!(m.get_block_at_pos(&p), None);
    assert_eq!(m.num_blocks(), 0);
    assert_eq!(m.remove_at_pos(&p), None);
}

#[test]
fn set_replaces_existing_occupant() {
    let mut m = Machine::new_sandbox(Vector3::new(2, 1, 1));
    let p = Point3::new(0, 0, 0);
    m.set_block_at_pos(&p, Some(pipe_x()));
    m.set_block_at_pos(&p, Some(solid()));
    assert_eq!(m.num_blocks(), 1);
    // The replacement lives in a fresh slot; the old one is tombstoned.
    assert_eq!(m.get_block_at_pos(&p), Some((1, solid())));
    assert!(!m.is_contiguous());
    check_consistency(&m);
    m.set_block_at_pos(&p, None);
    assert_eq!(m.get_block_at_pos(&p), None);
}

#[test]
fn consistency_across_edit_sequences() {
    let mut m = Machine::new_sandbox(Vector3::new(3, 3, 2));
    let ps = [
        Point3::new(0, 0, 0),
        Point3::new(1, 0, 0),
        Point3::new(2, 2, 1),
        Point3::new(0, 2, 0),
    ];
    for p in &ps {
        m.set_block_at_pos(p, Some(pipe_x()));
        check_consistency(&m);
    }
    m.remove_at_pos(&ps[1]);
    check_consistency(&m);
    m.set_block_at_pos(&ps[2], Some(solid()));
    check_consistency(&m);
    m.remove_at_pos(&ps[0]);
    m.set_block_at_pos(&ps[1], Some(solid()));
    check_consistency(&m);
    assert_eq!(m.num_blocks(), 3);
}

#[test]
fn gc_compacts_and_renumbers() {
    let mut m = Machine::new_sandbox(Vector3::new(3, 1, 1));
    let a = Point3::new(0, 0, 0);
    let b = Point3::new(1, 0, 0);
    let c = Point3::new(2, 0, 0);
    m.set_block_at_pos(&a, Some(pipe_x()));
    m.set_block_at_pos(&b, Some(solid()));
    m.set_block_at_pos(&c, Some(pipe_x()));
    m.remove_at_pos(&b);
    assert!(!m.is_contiguous());
    m.gc();
    assert!(m.is_contiguous());
    assert_eq!(m.num_blocks(), 2);
    // Survivors are renumbered densely, in their original order.
    assert_eq!(m.get_block_at_pos(&a), Some((0, pipe_x())));
    assert_eq!(m.get_block_at_pos(&c), Some((1, pipe_x())));
    assert_eq!(m.get_block_at_pos(&b), None);
    check_consistency(&m);
}

#[test]
fn gc_on_compact_machine_is_no_op() {
    let mut m = Machine::new_sandbox(Vector3::new(2, 2, 1));
    m.set_block_at_pos(&Point3::new(0, 0, 0), Some(pipe_x()));
    m.set_block_at_pos(&Point3::new(1, 1, 0), Some(solid()));
    assert!(m.is_contiguous());
    let before = m.clone();
    let entries_before = m.iter_blocks();
    m.gc();
    assert_eq!(m, before);
    assert_eq!(m.iter_blocks(), entries_before);
}

#[test]
fn iter_blocks_in_slot_order() {
    let mut m = Machine::new_sandbox(Vector3::new(3, 1, 1));
    let a = Point3::new(2, 0, 0);
    let b = Point3::new(0, 0, 0);
    m.set_block_at_pos(&a, Some(pipe_x()));
    m.set_block_at_pos(&b, Some(solid()));
    let entries = m.iter_blocks();
    assert_eq!(entries, vec![(0, (a, pipe_x())), (1, (b, solid()))]);
}

#[test]
fn iter_neighbors_finds_occupied_cells() {
    let mut m = Machine::new_sandbox(Vector3::new(3, 3, 3));
    let center = Point3::new(1, 1, 1);
    m.set_block_at_pos(&center, Some(pipe_x()));
    m.set_block_at_pos(&Point3::new(2, 1, 1), Some(solid()));
    m.set_block_at_pos(&Point3::new(1, 0, 1), Some(solid()));
    let n = m.iter_neighbors(&center);
    assert_eq!(n, vec![(Dir3::XPos, 1), (Dir3::YNeg, 2)]);
    // A corner sees only its in-grid neighbours.
    let corner = Point3::new(0, 0, 0);
    assert_eq!(m.iter_neighbors(&corner), vec![]);
}

#[test]
fn new_from_block_data_assigns_slots_in_order() {
    let data = vec![
        (Point3::new(0, 0, 0), pipe_x()),
        (Point3::new(1, 0, 0), solid()),
    ];
    let m = Machine::new_from_block_data(&Vector3::new(2, 1, 1), &data, None);
    assert_eq!(m.num_blocks(), 2);
    assert!(m.is_contiguous());
    assert_eq!(m.get_block_at_pos(&Point3::new(0, 0, 0)), Some((0, pipe_x())));
    assert_eq!(m.get_block_at_pos(&Point3::new(1, 0, 0)), Some((1, solid())));
    assert!(m.level.is_none());
    check_consistency(&m);
}

#[test]
fn saved_machine_round_trip() {
    let mut m = Machine::new_sandbox(Vector3::new(3, 2, 1));
    m.set_block_at_pos(&Point3::new(0, 0, 0), Some(pipe_x()));
    m.set_block_at_pos(&Point3::new(1, 1, 0), Some(solid()));
    m.set_block_at_pos(&Point3::new(2, 0, 0), Some(pipe_x()));
    m.remove_at_pos(&Point3::new(1, 1, 0));
    let saved = SavedMachine::from_machine(&m);
    assert_eq!(saved.size, Vector3::new(3, 2, 1));
    // Slot indices are not part of the saved form: only live pairs, in order.
    assert_eq!(
        saved.block_data,
        vec![
            (Point3::new(0, 0, 0), pipe_x()),
            (Point3::new(2, 0, 0), pipe_x()),
        ]
    );
    let restored = saved.into_machine();
    assert!(restored.is_contiguous());
    assert_eq!(restored.num_blocks(), 2);
    assert_eq!(
        restored.get_block_at_pos(&Point3::new(0, 0, 0)),
        Some((0, pipe_x()))
    );
    assert_eq!(
        restored.get_block_at_pos(&Point3::new(2, 0, 0)),
        Some((1, pipe_x()))
    );
    assert_eq!(restored.get_block_at_pos(&Point3::new(1, 1, 0)), None);
    check_consistency(&restored);
}

#[test]
fn new_from_level_places_boundary_blocks() {
    let level = Level {
        size: Vector3::new(4, 3, 1),
        goal: LevelSpec {
            inputs: vec![
                vec![Some(Input::Blip(BlipKind::A))],
                vec![Some(Input::Blip(BlipKind::B))],
            ],
            outputs: vec![vec![BlipKind::A]],
        },
    };
    let m = Machine::new_from_level(level.clone());
    assert_eq!(m.num_blocks(), 3);
    assert_eq!(m.level, Some(level));
    // Inputs are centred on the x-minimum face: y starts at 3/2 - 2/2 = 0.
    assert_eq!(
        m.get_block_at_pos(&Point3::new(0, 0, 0)),
        Some((
            0,
            PlacedBlock {
                rotation_xy: 0,
                block: Block::Input {
                    index: 0,
                    activated: None
                }
            }
        ))
    );
    assert_eq!(
        m.get_block_at_pos(&Point3::new(0, 1, 0)),
        Some((
            1,
            PlacedBlock {
                rotation_xy: 0,
                block: Block::Input {
                    index: 1,
                    activated: None
                }
            }
        ))
    );
    // The output is centred on the x-maximum face: y starts at 3/2 - 1/2 = 1.
    assert_eq!(
        m.get_block_at_pos(&Point3::new(3, 1, 0)),
        Some((
            2,
            PlacedBlock {
                rotation_xy: 0,
                block: Block::Output {
                    index: 0,
                    expected_next_kind: None
                }
            }
        ))
    );
    check_consistency(&m);
}

#[test]
fn level_duplicate_is_deep() {
    let level = Level {
        size: Vector3::new(2, 2, 2),
        goal: LevelSpec {
            inputs: vec![vec![Some(Input::Blip(BlipKind::C)), None]],
            outputs: vec![vec![BlipKind::B, BlipKind::C]],
        },
    };
    let copy = level.duplicate();
    assert_eq!(copy, level);
}
