use blipwind::exec::{compute_wind, Exec};
use blipwind::grid::{Dir3, Point3, Vector3};
use blipwind::level::{Input, Level, LevelSpec};
use blipwind::machine::{BlipKind, Block, Machine, PlacedBlock};
use blipwind::play::Status;
use blipwind::timer::Timer;

fn place(m: &mut Machine, x: isize, y: isize, z: isize, block: Block) {
    m.set_block_at_pos(
        &Point3::new(x, y, z),
        Some(PlacedBlock {
            rotation_xy: 0,
            block,
        }),
    );
}

/// Live blips as (position, kind, old position), in arena order.
fn live_blips(e: &Exec) -> Vec<(Point3, BlipKind, Option<Point3>)> {
    e.blips()
        .iter()
        .into_iter()
        .map(|(_, b)| (b.pos, b.kind, b.old_pos))
        .collect()
}

#[test]
fn wind_propagation_is_deterministic() {
    let mut m = Machine::new_sandbox(Vector3::new(3, 2, 1));
    place(&mut m, 0, 0, 0, Block::WindSource);
    place(&mut m, 1, 0, 0, Block::Pipe(Dir3::XPos, Dir3::XNeg));
    place(&mut m, 1, 1, 0, Block::FunnelXY);
    let w1 = compute_wind(&m);
    let w2 = compute_wind(&m);
    assert_eq!(w1, w2);
}

#[test]
fn straight_pipe_receives_wind() {
    // A wind source, then two pipes with compatible x-axis ports. After one
    // tick the first pipe takes wind in on its x-negative face and hands it
    // out on its x-positive face, so the second pipe takes wind in on its
    // x-negative face.
    let mut m = Machine::new_sandbox(Vector3::new(3, 1, 1));
    place(&mut m, 0, 0, 0, Block::WindSource);
    place(&mut m, 1, 0, 0, Block::Pipe(Dir3::XPos, Dir3::XNeg));
    place(&mut m, 2, 0, 0, Block::Pipe(Dir3::XPos, Dir3::XNeg));
    let mut e = Exec::new(m);
    e.update();
    let wind = e.wind_state();
    // Slot 0: the wind source takes no wind in.
    for d in [
        Dir3::XPos,
        Dir3::XNeg,
        Dir3::YPos,
        Dir3::YNeg,
        Dir3::ZPos,
        Dir3::ZNeg,
    ] {
        assert!(!wind[0].wind_in(d));
    }
    // Slot 1 (the pipe next to the source): wind in from x-negative.
    assert!(wind[1].wind_in(Dir3::XNeg));
    // Wind out towards x-positive shows as slot 2 receiving on x-negative.
    assert!(wind[2].wind_in(Dir3::XNeg));
    assert!(!wind[2].wind_in(Dir3::YPos));
    // The old wind state holds the pre-tick snapshot: all quiet.
    assert!(!e.old_wind_state()[1].wind_in(Dir3::XNeg));
    // A second tick reproduces the same wind state: fixed topology.
    let w1 = e.wind_state().clone();
    e.update();
    assert_eq!(*e.wind_state(), w1);
    assert_eq!(*e.old_wind_state(), w1);
}

#[test]
fn exhausted_spawner_never_spawns() {
    let mut m = Machine::new_sandbox(Vector3::new(1, 1, 1));
    place(
        &mut m,
        0,
        0,
        0,
        Block::BlipSpawn {
            kind: BlipKind::A,
            num_spawns: Some(0),
            activated: None,
        },
    );
    let mut e = Exec::new(m);
    for _ in 0..5 {
        e.update();
        assert_eq!(e.blips().len(), 0);
    }
    assert_eq!(e.cur_tick(), 5);
}

#[test]
fn limited_spawner_spawns_exactly_once() {
    // A one-shot spawner next to a solid eater: the blip appears, moves into
    // the solid on the next tick and is eaten; no further blips ever appear.
    let mut m = Machine::new_sandbox(Vector3::new(2, 1, 1));
    place(
        &mut m,
        0,
        0,
        0,
        Block::BlipSpawn {
            kind: BlipKind::B,
            num_spawns: Some(1),
            activated: None,
        },
    );
    place(&mut m, 1, 0, 0, Block::Solid);
    let mut e = Exec::new(m);
    e.update();
    assert_eq!(
        live_blips(&e),
        vec![(Point3::new(0, 0, 0), BlipKind::B, None)]
    );
    // The counter was decremented and the activation tick recorded.
    match e.machine().get_block_at_pos(&Point3::new(0, 0, 0)) {
        Some((_, pb)) => match pb.block {
            Block::BlipSpawn {
                num_spawns,
                activated,
                ..
            } => {
                assert_eq!(num_spawns, Some(0));
                assert_eq!(activated, Some(0));
            }
            _ => panic!("spawner changed variant"),
        },
        None => panic!("spawner vanished"),
    }
    e.update();
    // The blip moved into the solid and was absorbed; the spawner is spent.
    assert_eq!(e.blips().len(), 0);
    e.update();
    assert_eq!(e.blips().len(), 0);
}

#[test]
fn duplicator_copies_incoming_blip() {
    // An unfiltered duplicator flanked by two pipes. A kind-B blip enters
    // from the left; the duplicator destroys it and, on the next tick,
    // produces exactly two kind-B blips at its open move-port neighbours.
    let mut m = Machine::new_sandbox(Vector3::new(3, 1, 1));
    place(&mut m, 0, 0, 0, Block::Pipe(Dir3::XPos, Dir3::XNeg));
    place(
        &mut m,
        1,
        0,
        0,
        Block::BlipDuplicator {
            kind: None,
            activated: None,
        },
    );
    place(&mut m, 2, 0, 0, Block::Pipe(Dir3::XPos, Dir3::XNeg));
    let mut e = Exec::new(m);
    assert!(e.try_spawn_blip_at(false, BlipKind::B, &Point3::new(0, 0, 0)));
    e.update();
    // The incoming blip was consumed and recorded.
    assert_eq!(e.blips().len(), 0);
    match e.machine().get_block_at_pos(&Point3::new(1, 0, 0)) {
        Some((_, pb)) => assert_eq!(
            pb.block,
            Block::BlipDuplicator {
                kind: None,
                activated: Some(BlipKind::B)
            }
        ),
        None => panic!("duplicator vanished"),
    }
    e.update();
    // Exactly two copies, one per open side, both freshly spawned.
    assert_eq!(
        live_blips(&e),
        vec![
            (Point3::new(2, 0, 0), BlipKind::B, None),
            (Point3::new(0, 0, 0), BlipKind::B, None),
        ]
    );
    match e.machine().get_block_at_pos(&Point3::new(1, 0, 0)) {
        Some((_, pb)) => assert_eq!(
            pb.block,
            Block::BlipDuplicator {
                kind: None,
                activated: None
            }
        ),
        None => panic!("duplicator vanished"),
    }
}

#[test]
fn picky_duplicator_ignores_wrong_kind() {
    let mut m = Machine::new_sandbox(Vector3::new(2, 1, 1));
    place(&mut m, 0, 0, 0, Block::Pipe(Dir3::XPos, Dir3::XNeg));
    place(
        &mut m,
        1,
        0,
        0,
        Block::BlipDuplicator {
            kind: Some(BlipKind::A),
            activated: None,
        },
    );
    let mut e = Exec::new(m);
    assert!(e.try_spawn_blip_at(false, BlipKind::B, &Point3::new(0, 0, 0)));
    e.update();
    // The blip is consumed either way, but a non-matching kind does not
    // activate the duplicator.
    assert_eq!(e.blips().len(), 0);
    match e.machine().get_block_at_pos(&Point3::new(1, 0, 0)) {
        Some((_, pb)) => assert_eq!(
            pb.block,
            Block::BlipDuplicator {
                kind: Some(BlipKind::A),
                activated: None
            }
        ),
        None => panic!("duplicator vanished"),
    }
    e.update();
    assert_eq!(e.blips().len(), 0);
}

#[test]
fn output_records_kind_mismatch() {
    let mut m = Machine::new_sandbox(Vector3::new(2, 1, 1));
    place(&mut m, 0, 0, 0, Block::Pipe(Dir3::XPos, Dir3::XNeg));
    place(
        &mut m,
        1,
        0,
        0,
        Block::Output {
            index: 0,
            expected_next_kind: Some(BlipKind::A),
        },
    );
    let mut e = Exec::new(m);
    assert!(e.try_spawn_blip_at(false, BlipKind::B, &Point3::new(0, 0, 0)));
    assert!(!e.output_mismatch());
    e.update();
    // The blip was consumed and the mismatch observed; the engine goes on.
    assert_eq!(e.blips().len(), 0);
    assert!(e.output_mismatch());
    e.update();
    assert!(e.output_mismatch());
}

#[test]
fn output_accepts_expected_kind() {
    let mut m = Machine::new_sandbox(Vector3::new(2, 1, 1));
    place(&mut m, 0, 0, 0, Block::Pipe(Dir3::XPos, Dir3::XNeg));
    place(
        &mut m,
        1,
        0,
        0,
        Block::Output {
            index: 0,
            expected_next_kind: Some(BlipKind::B),
        },
    );
    let mut e = Exec::new(m);
    assert!(e.try_spawn_blip_at(false, BlipKind::B, &Point3::new(0, 0, 0)));
    e.update();
    assert_eq!(e.blips().len(), 0);
    assert!(!e.output_mismatch());
}

#[test]
fn blip_travels_along_pipes_without_backtracking() {
    let mut m = Machine::new_sandbox(Vector3::new(3, 1, 1));
    place(&mut m, 0, 0, 0, Block::Pipe(Dir3::XPos, Dir3::XNeg));
    place(&mut m, 1, 0, 0, Block::Pipe(Dir3::XPos, Dir3::XNeg));
    place(&mut m, 2, 0, 0, Block::Pipe(Dir3::XPos, Dir3::XNeg));
    let mut e = Exec::new(m);
    assert!(e.try_spawn_blip_at(false, BlipKind::A, &Point3::new(0, 0, 0)));
    e.update();
    assert_eq!(
        live_blips(&e),
        vec![(
            Point3::new(1, 0, 0),
            BlipKind::A,
            Some(Point3::new(0, 0, 0))
        )]
    );
    e.update();
    // It keeps going forward: the face it came through is never taken back.
    assert_eq!(
        live_blips(&e),
        vec![(
            Point3::new(2, 0, 0),
            BlipKind::A,
            Some(Point3::new(1, 0, 0))
        )]
    );
    e.update();
    // At the end of the line there is no usable port left: the blip is
    // destroyed rather than left stationary.
    assert_eq!(e.blips().len(), 0);
}

#[test]
fn merge_tie_break_is_arena_order() {
    // Two blips that would land on the same middle cell in the same tick:
    // the blip with the lower arena index moves first and survives; the
    // later one merges away.
    let mut m = Machine::new_sandbox(Vector3::new(3, 1, 1));
    place(&mut m, 0, 0, 0, Block::Pipe(Dir3::XPos, Dir3::XNeg));
    place(&mut m, 1, 0, 0, Block::Pipe(Dir3::XPos, Dir3::XNeg));
    place(&mut m, 2, 0, 0, Block::Pipe(Dir3::XPos, Dir3::XNeg));
    let mut e = Exec::new(m);
    assert!(e.try_spawn_blip_at(false, BlipKind::A, &Point3::new(0, 0, 0)));
    assert!(e.try_spawn_blip_at(false, BlipKind::B, &Point3::new(2, 0, 0)));
    e.update();
    assert_eq!(
        live_blips(&e),
        vec![(
            Point3::new(1, 0, 0),
            BlipKind::A,
            Some(Point3::new(0, 0, 0))
        )]
    );
}

#[test]
fn try_spawn_is_best_effort() {
    let mut m = Machine::new_sandbox(Vector3::new(2, 1, 1));
    place(&mut m, 0, 0, 0, Block::Pipe(Dir3::XPos, Dir3::XNeg));
    let mut e = Exec::new(m);
    // Out of bounds: silently nothing.
    assert!(!e.try_spawn_blip_at(false, BlipKind::A, &Point3::new(5, 0, 0)));
    // No block at the cell: silently nothing.
    assert!(!e.try_spawn_blip_at(false, BlipKind::A, &Point3::new(1, 0, 0)));
    // A free block cell: the blip appears.
    assert!(e.try_spawn_blip_at(false, BlipKind::A, &Point3::new(0, 0, 0)));
    // The cell is now occupied: silently nothing.
    assert!(!e.try_spawn_blip_at(false, BlipKind::B, &Point3::new(0, 0, 0)));
    assert_eq!(
        live_blips(&e),
        vec![(Point3::new(0, 0, 0), BlipKind::A, None)]
    );
}

#[test]
fn try_spawn_blip_on_engine_parts() {
    let mut m = Machine::new_sandbox(Vector3::new(1, 1, 1));
    place(&mut m, 0, 0, 0, Block::Solid);
    let mut e = Exec::new(m);
    let spawned = Exec::try_spawn_blip(
        true,
        BlipKind::C,
        &Point3::new(0, 0, 0),
        &e.machine.blocks.indices,
        &mut e.blip_state,
        &mut e.blips,
    );
    assert!(spawned);
    assert_eq!(e.blips.len(), 1);
}

#[test]
fn input_block_feeds_blips() {
    let level = Level {
        size: Vector3::new(3, 3, 1),
        goal: LevelSpec {
            inputs: vec![vec![Some(Input::Blip(BlipKind::A)), None]],
            outputs: vec![],
        },
    };
    let m = Machine::new_from_level(level);
    let mut e = Exec::new(m);
    // The input block sits vertically centred on the x-minimum face.
    let input_pos = Point3::new(0, 1, 0);
    e.update();
    assert_eq!(live_blips(&e), vec![(input_pos, BlipKind::A, None)]);
    match e.machine().get_block_at_pos(&input_pos) {
        Some((_, pb)) => assert_eq!(
            pb.block,
            Block::Input {
                index: 0,
                activated: Some(Input::Blip(BlipKind::A))
            }
        ),
        None => panic!("input vanished"),
    }
    e.update();
    // The second feed item is empty, and the fed blip found no neighbour
    // with a matching move port, so it was destroyed.
    assert_eq!(e.blips().len(), 0);
    match e.machine().get_block_at_pos(&input_pos) {
        Some((_, pb)) => assert_eq!(
            pb.block,
            Block::Input {
                index: 0,
                activated: None
            }
        ),
        None => panic!("input vanished"),
    }
}

#[test]
fn blip_wind_source_activation_cycle() {
    // A blip enters the blip-activated wind source through its activating
    // face (local y-negative); the source records the activation and
    // returns to idle one tick later.
    let mut m = Machine::new_sandbox(Vector3::new(1, 2, 1));
    place(&mut m, 0, 0, 0, Block::Pipe(Dir3::YPos, Dir3::YNeg));
    place(&mut m, 0, 1, 0, Block::BlipWindSource { activated: false });
    let mut e = Exec::new(m);
    // The pipe is at y=0, the source at y=1; the blip moves y-positive and
    // enters through the source's local YNeg face (rotation 0).
    assert!(e.try_spawn_blip_at(false, BlipKind::A, &Point3::new(0, 0, 0)));
    e.update();
    assert_eq!(e.blips().len(), 0);
    match e.machine().get_block_at_pos(&Point3::new(0, 1, 0)) {
        Some((_, pb)) => assert_eq!(pb.block, Block::BlipWindSource { activated: true }),
        None => panic!("source vanished"),
    }
    e.update();
    match e.machine().get_block_at_pos(&Point3::new(0, 1, 0)) {
        Some((_, pb)) => assert_eq!(pb.block, Block::BlipWindSource { activated: false }),
        None => panic!("source vanished"),
    }
}

#[test]
fn tick_counter_increments_by_one() {
    let m = Machine::new_sandbox(Vector3::new(1, 1, 1));
    let mut e = Exec::new(m);
    assert_eq!(e.cur_tick(), 0);
    e.update();
    assert_eq!(e.cur_tick(), 1);
    e.update();
    e.update();
    assert_eq!(e.cur_tick(), 3);
}

#[test]
fn status_transitions() {
    assert_eq!(Status::Playing.toggle_pause(), Status::Paused);
    assert_eq!(Status::Paused.toggle_pause(), Status::Playing);
    assert_eq!(Status::Stopped.toggle_pause(), Status::Stopped);
    assert_eq!(Status::Paused.stop(), Status::Stopped);
    assert!(Status::Playing.is_playing());
    assert!(!Status::Paused.is_playing());
    assert!(!Status::Stopped.is_playing());
}

#[test]
fn timer_triggers_each_period() {
    let mut t = Timer::new(100);
    assert_eq!(t.period(), 100);
    assert_eq!(t.accum(), 0);
    assert!(!t.trigger());
    t.advance(250);
    assert_eq!(t.accum(), 250);
    assert!(t.trigger());
    assert_eq!(t.accum(), 150);
    assert!(t.trigger());
    assert_eq!(t.accum(), 50);
    assert!(!t.trigger());
}

#[test]
fn timer_trigger_reset_clears_accum() {
    let mut t = Timer::new(100);
    t.advance(250);
    assert!(t.trigger_reset());
    assert_eq!(t.accum(), 0);
    assert!(!t.trigger_reset());
}

#[test]
fn timer_reset_reports_elapsed_period() {
    let mut t = Timer::new(60);
    t.advance(59);
    assert!(!t.reset());
    assert_eq!(t.accum(), 0);
    t.advance(60);
    assert!(t.reset());
    assert_eq!(t.accum(), 0);
}
