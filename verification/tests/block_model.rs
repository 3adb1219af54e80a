use blipwind::grid::{Axis3, Dir3, Point3, Sign, Vector3};
use blipwind::machine::{BlipKind, Block, PlacedBlock};

fn all_dirs() -> Vec<Dir3> {
    vec![
        Dir3::XPos,
        Dir3::XNeg,
        Dir3::YPos,
        Dir3::YNeg,
        Dir3::ZPos,
        Dir3::ZNeg,
    ]
}

#[test]
fn blip_kind_cycle() {
    assert_eq!(BlipKind::A.next(), BlipKind::B);
    assert_eq!(BlipKind::B.next(), BlipKind::C);
    assert_eq!(BlipKind::C.next(), BlipKind::A);
    assert_eq!(BlipKind::A.next().next().next(), BlipKind::A);
}

#[test]
fn blip_kind_names() {
    assert_eq!(BlipKind::A.name(), "a");
    assert_eq!(BlipKind::B.name(), "b");
    assert_eq!(BlipKind::C.name(), "c");
    assert_eq!(BlipKind::default(), BlipKind::A);
}

#[test]
fn dir_axis_sign_invert() {
    assert_eq!(Dir3::XPos.axis(), Axis3::X);
    assert_eq!(Dir3::YNeg.axis(), Axis3::Y);
    assert_eq!(Dir3::ZPos.axis(), Axis3::Z);
    assert_eq!(Dir3::XPos.sign(), Sign::Pos);
    assert_eq!(Dir3::YNeg.sign(), Sign::Neg);
    for d in all_dirs() {
        assert_eq!(d.invert().invert(), d);
        assert_ne!(d.invert(), d);
    }
}

#[test]
fn dir_rotation_cycle() {
    assert_eq!(Dir3::XPos.rotated_cw_xy(), Dir3::YPos);
    assert_eq!(Dir3::YPos.rotated_cw_xy(), Dir3::XNeg);
    assert_eq!(Dir3::XNeg.rotated_cw_xy(), Dir3::YNeg);
    assert_eq!(Dir3::YNeg.rotated_cw_xy(), Dir3::XPos);
    assert_eq!(Dir3::ZPos.rotated_cw_xy(), Dir3::ZPos);
    assert_eq!(Dir3::ZNeg.rotated_cw_xy(), Dir3::ZNeg);
    for d in all_dirs() {
        assert_eq!(d.rotated_cw_xy().rotated_ccw_xy(), d);
        assert_eq!(
            d.rotated_cw_xy()
                .rotated_cw_xy()
                .rotated_cw_xy()
                .rotated_cw_xy(),
            d
        );
    }
}

#[test]
fn dir_to_vector() {
    assert_eq!(Dir3::XPos.to_vector(), Vector3::new(1, 0, 0));
    assert_eq!(Dir3::YNeg.to_vector(), Vector3::new(0, -1, 0));
    assert_eq!(Dir3::ZPos.to_vector(), Vector3::new(0, 0, 1));
}

#[test]
fn point_add_dir() {
    let p = Point3::new(2, 3, 4);
    assert_eq!(p.add_dir(Dir3::XPos), Point3::new(3, 3, 4));
    assert_eq!(p.add_dir(Dir3::YNeg), Point3::new(2, 2, 4));
    assert_eq!(p.add_dir(Dir3::ZNeg), Point3::new(2, 3, 3));
}

#[test]
fn pipe_wind_holes() {
    let pipe = Block::Pipe(Dir3::XPos, Dir3::XNeg);
    assert!(pipe.has_wind_hole(Dir3::XPos));
    assert!(pipe.has_wind_hole(Dir3::XNeg));
    assert!(!pipe.has_wind_hole(Dir3::YPos));
    assert!(pipe.has_wind_hole_in(Dir3::XPos));
    assert!(pipe.has_wind_hole_out(Dir3::XNeg));
    assert!(pipe.has_move_hole(Dir3::XPos));
    assert!(!pipe.has_move_hole(Dir3::ZPos));
}

#[test]
fn funnel_is_one_way() {
    let f = Block::FunnelXY;
    assert!(f.has_wind_hole(Dir3::YPos));
    assert!(f.has_wind_hole(Dir3::YNeg));
    assert!(f.has_wind_hole_in(Dir3::YNeg));
    assert!(!f.has_wind_hole_in(Dir3::YPos));
    assert!(f.has_wind_hole_out(Dir3::YPos));
    assert!(!f.has_wind_hole_out(Dir3::YNeg));
    assert!(!f.has_wind_hole(Dir3::XPos));
}

#[test]
fn wind_source_only_emits() {
    let w = Block::WindSource;
    for d in all_dirs() {
        assert!(w.has_wind_hole(d));
        assert!(!w.has_wind_hole_in(d));
        assert!(w.has_wind_hole_out(d));
    }
}

#[test]
fn duplicator_ports() {
    let b = Block::BlipDuplicator {
        kind: None,
        activated: None,
    };
    for d in all_dirs() {
        assert!(b.has_wind_hole(d));
        assert!(b.has_wind_hole_in(d));
        assert!(!b.has_wind_hole_out(d));
        assert!(b.has_move_hole(d));
    }
}

#[test]
fn blip_wind_source_ports() {
    let b = Block::BlipWindSource { activated: false };
    assert!(!b.has_wind_hole_out(Dir3::YNeg));
    assert!(b.has_wind_hole_out(Dir3::XPos));
    assert!(b.has_move_hole(Dir3::YNeg));
    assert!(!b.has_move_hole(Dir3::XPos));
}

#[test]
fn pipe_merge_is_flat_four_way() {
    let b = Block::PipeMergeXY;
    assert!(b.has_wind_hole(Dir3::XPos));
    assert!(b.has_wind_hole(Dir3::YNeg));
    assert!(!b.has_wind_hole(Dir3::ZPos));
    assert!(!b.has_wind_hole(Dir3::ZNeg));
}

#[test]
fn pipe_split_open_branch() {
    let b = Block::PipeSplitXY {
        open_move_hole_y: Sign::Pos,
    };
    assert!(b.has_move_hole(Dir3::YPos));
    assert!(!b.has_move_hole(Dir3::YNeg));
    assert!(b.has_move_hole(Dir3::XPos));
    assert!(b.has_wind_hole(Dir3::YNeg));
}

#[test]
fn input_output_ports() {
    let i = Block::Input {
        index: 0,
        activated: None,
    };
    assert!(i.has_wind_hole(Dir3::XPos));
    assert!(!i.has_wind_hole(Dir3::XNeg));
    let o = Block::Output {
        index: 0,
        expected_next_kind: None,
    };
    assert!(o.has_wind_hole(Dir3::XNeg));
    assert!(!o.has_wind_hole(Dir3::ZNeg));
    assert!(!o.has_wind_hole_out(Dir3::XPos));
}

#[test]
fn kind_and_with_kind() {
    let s = Block::BlipSpawn {
        kind: BlipKind::A,
        num_spawns: Some(3),
        activated: None,
    };
    assert_eq!(s.kind(), Some(BlipKind::A));
    let s2 = s.with_kind(BlipKind::C);
    assert_eq!(s2.kind(), Some(BlipKind::C));
    match s2 {
        Block::BlipSpawn { num_spawns, .. } => assert_eq!(num_spawns, Some(3)),
        _ => panic!("variant changed"),
    }
    let d = Block::BlipDuplicator {
        kind: None,
        activated: None,
    };
    assert_eq!(d.kind(), None);
    assert_eq!(d.with_kind(BlipKind::B).kind(), Some(BlipKind::B));
    assert_eq!(Block::Solid.with_kind(BlipKind::B), Block::Solid);
    assert_eq!(Block::Solid.kind(), None);
}

#[test]
fn block_names() {
    assert_eq!(Block::Pipe(Dir3::XPos, Dir3::XNeg).name(), "Pipe straight");
    assert_eq!(Block::Pipe(Dir3::XPos, Dir3::YPos).name(), "Pipe curve");
    assert_eq!(Block::Pipe(Dir3::ZPos, Dir3::ZNeg).name(), "Pipe up/down");
    assert_eq!(Block::Pipe(Dir3::XPos, Dir3::ZNeg).name(), "Pipe curve down");
    assert_eq!(Block::Pipe(Dir3::YPos, Dir3::ZPos).name(), "Pipe curve up");
    assert_eq!(Block::WindSource.name(), "Wind source");
    assert_eq!(
        Block::BlipSpawn {
            kind: BlipKind::A,
            num_spawns: None,
            activated: None
        }
        .name(),
        "Blip source"
    );
    assert_eq!(
        Block::BlipSpawn {
            kind: BlipKind::A,
            num_spawns: Some(1),
            activated: None
        }
        .name(),
        "Blip spawn"
    );
    assert_eq!(
        Block::BlipDuplicator {
            kind: Some(BlipKind::A),
            activated: None
        }
        .name(),
        "Picky blip copier"
    );
    assert_eq!(Block::Solid.name(), "Solid");
}

#[test]
fn block_descriptions() {
    assert_eq!(Block::Solid.description(), "Eats blips.");
    assert_eq!(
        Block::BlipSpawn {
            kind: BlipKind::A,
            num_spawns: Some(1),
            activated: None
        }
        .description(),
        "Spawns one blip."
    );
    assert_eq!(
        Block::BlipSpawn {
            kind: BlipKind::A,
            num_spawns: Some(4),
            activated: None
        }
        .description(),
        "Spawns a limited number of blips."
    );
    assert_eq!(
        Block::WindSource.description(),
        "Produces a stream of wind in all directions."
    );
}

#[test]
fn placed_block_rotation_round_trip() {
    // Four clockwise quarter turns restore every port answer in every
    // direction, whatever the starting rotation.
    for start in 0..4usize {
        let mut pb = PlacedBlock {
            rotation_xy: start,
            block: Block::FunnelXY,
        };
        let before: Vec<(bool, bool)> = all_dirs()
            .into_iter()
            .map(|d| (pb.has_wind_hole(d), pb.has_move_hole(d)))
            .collect();
        let orig = pb;
        pb.rotate_cw_xy();
        pb.rotate_cw_xy();
        pb.rotate_cw_xy();
        pb.rotate_cw_xy();
        assert_eq!(pb, orig);
        let after: Vec<(bool, bool)> = all_dirs()
            .into_iter()
            .map(|d| (pb.has_wind_hole(d), pb.has_move_hole(d)))
            .collect();
        assert_eq!(before, after);
    }
}

#[test]
fn placed_block_rotation_ccw_inverse() {
    let mut pb = PlacedBlock {
        rotation_xy: 2,
        block: Block::Pipe(Dir3::XPos, Dir3::YPos),
    };
    let orig = pb;
    pb.rotate_cw_xy();
    pb.rotate_ccw_xy();
    assert_eq!(pb, orig);
    pb.rotate_ccw_xy();
    pb.rotate_cw_xy();
    assert_eq!(pb, orig);
}

#[test]
fn placed_block_rotated_ports() {
    // A funnel rotated one quarter turn clockwise takes wind in on the
    // world face that maps onto its local YNeg.
    let pb = PlacedBlock {
        rotation_xy: 1,
        block: Block::FunnelXY,
    };
    // local YNeg rotated cw once is XPos, so wind enters through world XPos.
    assert_eq!(pb.rotated_dir_xy(Dir3::YNeg), Dir3::XPos);
    assert!(pb.has_wind_hole_in(Dir3::XPos));
    assert!(!pb.has_wind_hole_in(Dir3::YNeg));
    assert!(pb.has_wind_hole_out(Dir3::XNeg));
}

#[test]
fn wind_hole_lists() {
    let pb = PlacedBlock {
        rotation_xy: 0,
        block: Block::FunnelXY,
    };
    assert_eq!(pb.wind_holes(), vec![Dir3::YPos, Dir3::YNeg]);
    assert_eq!(pb.wind_holes_in(), vec![Dir3::YNeg]);
    assert_eq!(pb.wind_holes_out(), vec![Dir3::YPos]);
    let src = PlacedBlock {
        rotation_xy: 3,
        block: Block::WindSource,
    };
    assert_eq!(src.wind_holes().len(), 6);
    assert_eq!(src.wind_holes_in().len(), 0);
    assert_eq!(src.wind_holes_out().len(), 6);
}
