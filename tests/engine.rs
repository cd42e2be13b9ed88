use lines_king::{
    Board, BoardError, Direction, EdgePolicy, KeyCode, Player, Point, SimError, Simulation, Tile,
    TickError,
};

const KEY_A: KeyCode = 0x61;
const KEY_D: KeyCode = 0x64;
const KEY_0: KeyCode = 0x30;
const KEY_9: KeyCode = 0x39;

fn player(x: usize, y: usize, id: usize, direction: Direction, left: KeyCode, right: KeyCode) -> Player {
    Player { pos: Point { x, y }, id, direction, left_key: left, right_key: right }
}

fn sim(width: usize, height: usize, players: Vec<Player>, policy: EdgePolicy, interval: u64) -> Simulation {
    Simulation::new(width, height, players, policy, interval).unwrap()
}

fn tile(s: &Simulation, x: usize, y: usize) -> Tile {
    s.board().get(Point { x, y })
}

#[test]
fn scenario_three_ticks_then_turn_north() {
    let mut s = sim(10, 10, vec![player(1, 1, 0, Direction::East, KEY_A, KEY_D)], EdgePolicy::Wrapping, 1);
    for _ in 0..3 {
        assert_eq!(s.tick(), Ok(()));
    }
    assert_eq!(s.players()[0].pos, Point { x: 4, y: 1 });
    for x in 1..5 {
        assert_eq!(tile(&s, x, 1), Tile::Occupied(0));
    }
    assert_eq!(tile(&s, 5, 1), Tile::Empty);
    s.press_button(KEY_A);
    assert_eq!(s.players()[0].direction, Direction::North);
    assert_eq!(s.tick(), Ok(()));
    assert_eq!(s.players()[0].pos, Point { x: 4, y: 0 });
    assert_eq!(tile(&s, 4, 0), Tile::Occupied(0));
}

#[test]
fn scenario_driven_by_elapsed_time() {
    let mut s = sim(10, 10, vec![player(1, 1, 0, Direction::East, KEY_A, KEY_D)], EdgePolicy::Wrapping, 1);
    // 4 units pending: three whole intervals are released, one stays.
    assert_eq!(s.advance(4), Ok(3));
    assert_eq!(s.pending(), 1);
    assert_eq!(s.players()[0].pos, Point { x: 4, y: 1 });
    s.press_button(KEY_A);
    assert_eq!(s.advance(1), Ok(1));
    assert_eq!(s.pending(), 1);
    assert_eq!(s.players()[0].pos, Point { x: 4, y: 0 });
    assert_eq!(tile(&s, 4, 0), Tile::Occupied(0));
}

#[test]
fn advance_carries_remainder() {
    let mut s = sim(20, 20, vec![player(0, 0, 0, Direction::South, KEY_A, KEY_D)], EdgePolicy::Wrapping, 10);
    assert_eq!(s.advance(10), Ok(0));
    assert_eq!(s.pending(), 10);
    assert_eq!(s.advance(15), Ok(2));
    assert_eq!(s.pending(), 5);
    assert_eq!(s.players()[0].pos, Point { x: 0, y: 2 });
    assert_eq!(s.advance(0), Ok(0));
    assert_eq!(s.pending(), 5);
}

#[test]
fn step_changes_one_coordinate_by_one() {
    for d in [Direction::North, Direction::East, Direction::South, Direction::West] {
        let mut p = player(3, 3, 0, d, KEY_A, KEY_D);
        p.step(7, 7, EdgePolicy::Clamped);
        let dx = (p.pos.x as i64 - 3).abs();
        let dy = (p.pos.y as i64 - 3).abs();
        assert_eq!(dx + dy, 1);
        assert_eq!(p.direction, d);
    }
    let mut p = player(3, 3, 0, Direction::North, KEY_A, KEY_D);
    p.step(7, 7, EdgePolicy::Wrapping);
    assert_eq!(p.pos, Point { x: 3, y: 2 });
}

#[test]
fn turning_is_a_bijection() {
    for d in [Direction::North, Direction::East, Direction::South, Direction::West] {
        let mut p = player(0, 0, 0, d, KEY_A, KEY_D);
        p.turn_left();
        p.turn_right();
        assert_eq!(p.direction, d);
        p.turn_right();
        p.turn_left();
        assert_eq!(p.direction, d);
        for _ in 0..4 {
            p.turn_left();
        }
        assert_eq!(p.direction, d);
    }
    let mut p = player(0, 0, 0, Direction::North, KEY_A, KEY_D);
    p.turn_left();
    assert_eq!(p.direction, Direction::West);
    p.turn_left();
    assert_eq!(p.direction, Direction::South);
    p.turn_right();
    p.turn_right();
    p.turn_right();
    assert_eq!(p.direction, Direction::East);
}

#[test]
fn wrapping_at_every_edge() {
    let mut p = player(0, 2, 0, Direction::West, KEY_A, KEY_D);
    p.step(5, 4, EdgePolicy::Wrapping);
    assert_eq!(p.pos, Point { x: 4, y: 2 });
    p.direction = Direction::East;
    p.step(5, 4, EdgePolicy::Wrapping);
    assert_eq!(p.pos, Point { x: 0, y: 2 });
    let mut q = player(1, 0, 0, Direction::North, KEY_A, KEY_D);
    q.step(5, 4, EdgePolicy::Wrapping);
    assert_eq!(q.pos, Point { x: 1, y: 3 });
    q.direction = Direction::South;
    q.step(5, 4, EdgePolicy::Wrapping);
    assert_eq!(q.pos, Point { x: 1, y: 0 });
}

#[test]
fn wrapping_on_a_single_cell_board() {
    let mut s = sim(1, 1, vec![player(0, 0, 0, Direction::East, KEY_A, KEY_D)], EdgePolicy::Wrapping, 1);
    assert_eq!(s.tick(), Ok(()));
    assert_eq!(s.players()[0].pos, Point { x: 0, y: 0 });
}

#[test]
fn clamped_tick_at_edge_is_refused() {
    let mut s = sim(4, 4, vec![player(3, 1, 0, Direction::East, KEY_A, KEY_D)], EdgePolicy::Clamped, 1);
    assert!(s.is_blocked());
    assert_eq!(s.tick(), Err(TickError::WouldLeaveBoard));
    assert_eq!(s.players()[0].pos, Point { x: 3, y: 1 });
    assert_eq!(tile(&s, 0, 1), Tile::Empty);
    assert_eq!(s.advance(5), Err(TickError::WouldLeaveBoard));
    assert_eq!(s.pending(), 1);
    s.press_button(KEY_D);
    assert!(!s.is_blocked());
    assert_eq!(s.tick(), Ok(()));
    assert_eq!(s.players()[0].pos, Point { x: 3, y: 2 });
}

#[test]
fn clamped_advance_stops_at_the_edge() {
    let mut s = sim(4, 4, vec![player(1, 1, 0, Direction::East, KEY_A, KEY_D)], EdgePolicy::Clamped, 1);
    assert_eq!(s.advance(10), Err(TickError::WouldLeaveBoard));
    assert_eq!(s.players()[0].pos, Point { x: 3, y: 1 });
    assert_eq!(s.pending(), 1);
    assert_eq!(tile(&s, 2, 1), Tile::Occupied(0));
    assert_eq!(tile(&s, 3, 1), Tile::Occupied(0));
}

#[test]
fn other_buttons_change_nothing() {
    let p0 = player(2, 2, 7, Direction::South, KEY_A, KEY_D);
    let mut p = p0;
    p.turn(KEY_9);
    assert_eq!(p, p0);
    p.turn(KEY_D);
    assert_eq!(p.direction, Direction::West);
    p.turn(KEY_A);
    assert_eq!(p.direction, Direction::South);
}

#[test]
fn agents_with_disjoint_keys_are_independent() {
    let mut s = sim(
        20,
        20,
        vec![
            player(1, 1, 0, Direction::East, KEY_A, KEY_D),
            player(10, 10, 1, Direction::South, KEY_9, KEY_0),
        ],
        EdgePolicy::Wrapping,
        1,
    );
    for k in [KEY_A, KEY_A, KEY_D, KEY_A] {
        s.press_button(k);
        assert_eq!(s.players()[1].direction, Direction::South);
    }
    assert_eq!(s.players()[0].direction, Direction::West);
    for k in [KEY_9, KEY_0, KEY_0] {
        s.press_button(k);
        assert_eq!(s.players()[0].direction, Direction::West);
    }
    assert_eq!(s.players()[1].direction, Direction::West);
}

#[test]
fn occupancy_never_reverts() {
    let mut s = sim(
        6,
        6,
        vec![
            player(0, 0, 0, Direction::East, KEY_A, KEY_D),
            player(5, 0, 1, Direction::West, KEY_9, KEY_0),
        ],
        EdgePolicy::Wrapping,
        1,
    );
    let mut seen: Vec<(usize, usize)> = vec![(0, 0), (5, 0)];
    for _ in 0..20 {
        s.tick().unwrap();
        for p in s.players() {
            seen.push((p.pos.x, p.pos.y));
        }
        for &(x, y) in &seen {
            assert!(matches!(tile(&s, x, y), Tile::Occupied(_)));
        }
    }
}

#[test]
fn later_agent_overwrites_shared_cell() {
    let mut s = sim(
        5,
        5,
        vec![
            player(1, 2, 0, Direction::East, KEY_A, KEY_D),
            player(3, 2, 1, Direction::West, KEY_9, KEY_0),
        ],
        EdgePolicy::Wrapping,
        1,
    );
    assert_eq!(s.tick(), Ok(()));
    assert_eq!(tile(&s, 2, 2), Tile::Occupied(1));
}

#[test]
fn new_board_marks_starting_cells() {
    let players = vec![player(1, 1, 0, Direction::East, KEY_A, KEY_D), player(2, 0, 3, Direction::South, KEY_9, KEY_0)];
    let b = Board::new(3, 2, &players).unwrap();
    assert_eq!(b.width(), 3);
    assert_eq!(b.height(), 2);
    assert_eq!(b.get(Point { x: 1, y: 1 }), Tile::Occupied(0));
    assert_eq!(b.get(Point { x: 2, y: 0 }), Tile::Occupied(3));
    assert_eq!(b.get(Point { x: 0, y: 0 }), Tile::Empty);
    assert_eq!(b.get(Point { x: 2, y: 1 }), Tile::Empty);
}

#[test]
fn set_occupied_marks_one_cell() {
    let mut b = Board::new(4, 3, &vec![]).unwrap();
    b.set_occupied(Point { x: 3, y: 2 }, 9);
    assert_eq!(b.get(Point { x: 3, y: 2 }), Tile::Occupied(9));
    assert_eq!(b.get(Point { x: 2, y: 2 }), Tile::Empty);
    assert_eq!(b.get(Point { x: 3, y: 1 }), Tile::Empty);
}

#[test]
fn board_errors() {
    let inside = vec![player(0, 0, 0, Direction::East, KEY_A, KEY_D)];
    assert_eq!(Board::new(0, 5, &inside).err(), Some(BoardError::EmptyBoard));
    assert_eq!(Board::new(5, 0, &inside).err(), Some(BoardError::EmptyBoard));
    assert_eq!(Board::new(usize::MAX, 2, &inside).err(), Some(BoardError::TooLarge));
    let outside = vec![
        player(0, 0, 0, Direction::East, KEY_A, KEY_D),
        player(0, 5, 1, Direction::East, KEY_9, KEY_0),
        player(9, 9, 2, Direction::East, KEY_9, KEY_0),
    ];
    assert_eq!(Board::new(5, 5, &outside).err(), Some(BoardError::PlayerOutside(1)));
}

#[test]
fn simulation_errors() {
    let inside = vec![player(0, 0, 0, Direction::East, KEY_A, KEY_D)];
    assert_eq!(
        Simulation::new(0, 3, inside.clone(), EdgePolicy::Wrapping, 1).err(),
        Some(SimError::Board(BoardError::EmptyBoard))
    );
    assert_eq!(
        Simulation::new(3, 3, inside.clone(), EdgePolicy::Wrapping, 0).err(),
        Some(SimError::ZeroInterval)
    );
    let s = Simulation::new(3, 3, inside, EdgePolicy::Clamped, 16).unwrap();
    assert_eq!(s.policy(), EdgePolicy::Clamped);
    assert_eq!(s.update_interval(), 16);
    assert_eq!(s.pending(), 0);
}

#[test]
fn direction_rotations() {
    assert_eq!(Direction::North.turned_left(), Direction::West);
    assert_eq!(Direction::East.turned_left(), Direction::North);
    assert_eq!(Direction::North.turned_right(), Direction::East);
    assert_eq!(Direction::West.turned_right(), Direction::North);
}
