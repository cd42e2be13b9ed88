use vstd::prelude::*;

use crate::board::{
    all_inside, board_error, filled, is_occupied, lemma_mark_all_keeps_occupied, mark_all, Board,
    BoardError, Tile,
};
use crate::direction::Direction;
use crate::player::{at_edge, in_bounds, stepped, turned, EdgePolicy, KeyCode, Player, Point};

verus! {

/// Why a tick could not be made.
#[derive(Copy, Clone, Debug, PartialEq, Eq, Structural)]
pub enum TickError {
    /// Under the clamped policy, some agent faces the edge it stands on.
    WouldLeaveBoard,
}

/// Why a simulation cannot be built.
#[derive(Copy, Clone, Debug, PartialEq, Eq, Structural)]
pub enum SimError {
    Board(BoardError),
    /// The update interval is zero.
    ZeroInterval,
}

/// Whether a tick under `policy` would move some agent off the board.
pub open spec fn tick_blocked(players: Seq<Player>, width: nat, height: nat, policy: EdgePolicy) -> bool {
    &&& policy == EdgePolicy::Clamped
    &&& exists|i: int| 0 <= i < players.len() && at_edge(#[trigger] players[i].pos, players[i].direction, width, height)
}

/// Every agent of `players` after one step.
pub open spec fn step_all(players: Seq<Player>, width: nat, height: nat) -> Seq<Player> {
    players.map_values(|p: Player| stepped(p, width, height))
}

/// Every agent of `players` after `button` was routed to it.
pub open spec fn turn_all(players: Seq<Player>, button: KeyCode) -> Seq<Player> {
    players.map_values(|p: Player| turned(p, button))
}

/// How many ticks an accumulated time `t` releases: one per whole interval
/// while more than one interval is pending.
pub open spec fn due_ticks(t: nat, interval: nat) -> nat
    decreases t,
{
    if interval == 0 || t <= interval {
        0
    } else {
        1 + due_ticks((t - interval) as nat, interval)
    }
}

/// What is left of an accumulated time `t` once its due ticks are released.
pub open spec fn pending_time(t: nat, interval: nat) -> nat
    decreases t,
{
    if interval == 0 || t <= interval {
        t
    } else {
        pending_time((t - interval) as nat, interval)
    }
}

proof fn lemma_due_ticks_bound(t: nat, interval: nat)
    requires
        0 < interval,
        interval < t,
    ensures
        due_ticks(t, interval) <= t - interval,
        0 < due_ticks(t, interval),
    decreases t,
{
    let rest = (t - interval) as nat;
    assert(due_ticks(t, interval) == 1 + due_ticks(rest, interval));
    if rest > interval {
        lemma_due_ticks_bound(rest, interval);
    }
}

/// Under the wrapping policy no tick is ever blocked, so all `n` ticks are made.
pub proof fn lemma_run_wrapping_completes(
    cells: Seq<Seq<Tile>>,
    players: Seq<Player>,
    n: nat,
    width: nat,
    height: nat,
)
    ensures
        run(cells, players, n, width, height, EdgePolicy::Wrapping).2 == n,
    decreases n,
{
    if n > 0 {
        let moved = step_all(players, width, height);
        lemma_run_wrapping_completes(mark_all(cells, moved), moved, (n - 1) as nat, width, height);
    }
}

/// Up to `n` ticks from `cells` and `players`, stopping at the first blocked
/// one: the cells, the agents, and the number of ticks made.
pub open spec fn run(
    cells: Seq<Seq<Tile>>,
    players: Seq<Player>,
    n: nat,
    width: nat,
    height: nat,
    policy: EdgePolicy,
) -> (Seq<Seq<Tile>>, Seq<Player>, nat)
    decreases n,
{
    if n == 0 || tick_blocked(players, width, height, policy) {
        (cells, players, 0)
    } else {
        let moved = step_all(players, width, height);
        let r = run(mark_all(cells, moved), moved, (n - 1) as nat, width, height, policy);
        (r.0, r.1, r.2 + 1)
    }
}

/// The board, its agents in registration order, the edge policy, and a time
/// accumulator that turns elapsed time into whole ticks.
pub struct Simulation {
    board: Board,
    players: Vec<Player>,
    policy: EdgePolicy,
    update_interval: u64,
    time: u64,
}

impl Simulation {
    pub closed spec fn spec_board(&self) -> Board {
        self.board
    }

    pub closed spec fn spec_players(&self) -> Seq<Player> {
        self.players@
    }

    pub closed spec fn spec_policy(&self) -> EdgePolicy {
        self.policy
    }

    pub closed spec fn spec_interval(&self) -> nat {
        self.update_interval as nat
    }

    pub closed spec fn spec_time(&self) -> nat {
        self.time as nat
    }

    pub open spec fn spec_width(&self) -> nat {
        self.spec_board().spec_width()
    }

    pub open spec fn spec_height(&self) -> nat {
        self.spec_board().spec_height()
    }

    pub open spec fn wf(&self) -> bool {
        &&& self.spec_board().wf()
        &&& all_inside(self.spec_players(), self.spec_width(), self.spec_height())
        &&& 0 < self.spec_interval()
        &&& self.spec_time() <= self.spec_interval()
    }

    /// A simulation of `players` on a fresh `width` x `height` board, with no
    /// time pending.
    pub fn new(
        width: usize,
        height: usize,
        players: Vec<Player>,
        policy: EdgePolicy,
        update_interval: u64,
    ) -> (r: Result<Simulation, SimError>)
        ensures
            match board_error(width as nat, height as nat, players@) {
                Some(e) => r == Err::<Simulation, SimError>(SimError::Board(e)),
                None => if update_interval == 0 {
                    r == Err::<Simulation, SimError>(SimError::ZeroInterval)
                } else {
                    r is Ok
                },
            },
            r is Ok ==> {
                let s = r->Ok_0;
                &&& s.wf()
                &&& s.spec_width() == width
                &&& s.spec_height() == height
                &&& s.spec_board()@ == mark_all(filled(height as nat, width as nat, Tile::Empty), players@)
                &&& s.spec_players() == players@
                &&& s.spec_policy() == policy
                &&& s.spec_interval() == update_interval
                &&& s.spec_time() == 0
            },
    {
        let board = match Board::new(width, height, &players) {
            Ok(b) => b,
            Err(e) => {
                return Err(SimError::Board(e));
            },
        };
        if update_interval == 0 {
            return Err(SimError::ZeroInterval);
        }
        Ok(Simulation { board, players, policy, update_interval, time: 0 })
    }

    /// Whether the next tick is blocked: under the clamped policy, some agent
    /// faces the edge it stands on.
    pub fn is_blocked(&self) -> (r: bool)
        requires
            self.wf(),
        ensures
            r == tick_blocked(self.spec_players(), self.spec_width(), self.spec_height(), self.spec_policy()),
    {
        if self.policy == EdgePolicy::Wrapping {
            return false;
        }
        let width = self.board.width();
        let height = self.board.height();
        let mut i: usize = 0;
        while i < self.players.len()
            invariant
                i <= self.players@.len(),
                self.policy == EdgePolicy::Clamped,
                0 < width,
                0 < height,
                width == self.spec_width(),
                height == self.spec_height(),
                forall|j: int| 0 <= j < i ==> !at_edge(#[trigger] self.players@[j].pos, self.players@[j].direction, width as nat, height as nat),
            decreases self.players@.len() - i,
        {
            let p = self.players[i];
            let edge = match p.direction {
                Direction::North => p.pos.y == 0,
                Direction::South => p.pos.y >= height - 1,
                Direction::West => p.pos.x == 0,
                Direction::East => p.pos.x >= width - 1,
            };
            if edge {
                assert(at_edge(self.players@[i as int].pos, self.players@[i as int].direction, width as nat, height as nat));
                return true;
            }
            i += 1;
        }
        false
    }

    /// Advances every agent one cell, in registration order, and marks each
    /// agent's new cell with its id. Nothing changes when the tick is blocked.
    pub fn tick(&mut self) -> (r: Result<(), TickError>)
        requires
            old(self).wf(),
        ensures
            final(self).wf(),
            tick_blocked(old(self).spec_players(), old(self).spec_width(), old(self).spec_height(), old(self).spec_policy())
                <==> r is Err,
            r is Err ==> *final(self) == *old(self),
            r is Ok ==> {
                let moved = step_all(old(self).spec_players(), old(self).spec_width(), old(self).spec_height());
                &&& final(self).spec_players() == moved
                &&& final(self).spec_board()@ == mark_all(old(self).spec_board()@, moved)
            },
            final(self).spec_width() == old(self).spec_width(),
            final(self).spec_height() == old(self).spec_height(),
            final(self).spec_policy() == old(self).spec_policy(),
            final(self).spec_interval() == old(self).spec_interval(),
            final(self).spec_time() == old(self).spec_time(),
            forall|q: Point| #![trigger final(self).spec_board().tile(q)]
                in_bounds(q, old(self).spec_width(), old(self).spec_height())
                    && is_occupied(old(self).spec_board().tile(q))
                    ==> is_occupied(final(self).spec_board().tile(q)),
    {
        if self.is_blocked() {
            return Err(TickError::WouldLeaveBoard);
        }
        let width = self.board.width();
        let height = self.board.height();
        let ghost w = width as nat;
        let ghost h = height as nat;
        let ghost old_players = self.players@;
        let ghost old_cells = self.board@;
        let ghost moved = step_all(old_players, w, h);
        let mut i: usize = 0;
        while i < self.players.len()
            invariant
                self.board.wf(),
                self.policy == old(self).policy,
                self.update_interval == old(self).update_interval,
                self.time == old(self).time,
                0 < self.update_interval,
                self.time <= self.update_interval,
                width == self.board.spec_width(),
                height == self.board.spec_height(),
                w == width,
                h == height,
                !tick_blocked(old_players, w, h, self.policy),
                all_inside(old_players, w, h),
                self.players@.len() == old_players.len(),
                i <= old_players.len(),
                forall|j: int| 0 <= j < i ==> self.players@[j] == #[trigger] moved[j],
                forall|j: int| i <= j < old_players.len() ==> self.players@[j] == #[trigger] old_players[j],
                self.board@ == mark_all(old_cells, moved.take(i as int)),
                moved == step_all(old_players, w, h),
            decreases old_players.len() - i,
        {
            let mut p = self.players[i];
            proof {
                assert(in_bounds(old_players[i as int].pos, w, h));
                if self.policy == EdgePolicy::Clamped {
                    assert(!at_edge(old_players[i as int].pos, old_players[i as int].direction, w, h));
                }
            }
            p.step(width, height, self.policy);
            self.players.set(i, p);
            self.board.set_occupied(p.pos, p.id);
            proof {
                assert(moved.take(i as int + 1).drop_last() =~= moved.take(i as int));
            }
            i += 1;
        }
        proof {
            assert(self.players@ =~= moved);
            assert(moved.take(i as int) =~= moved);
            assert forall|j: int| 0 <= j < moved.len() implies in_bounds(#[trigger] moved[j].pos, w, h) by {
                assert(in_bounds(old_players[j].pos, w, h));
            }
            assert forall|q: Point| #![trigger self.board.tile(q)]
                in_bounds(q, w, h) && is_occupied(old(self).board.tile(q)) implies is_occupied(self.board.tile(q)) by {
                lemma_mark_all_keeps_occupied(old_cells, moved, w, h, q);
            }
        }
        Ok(())
    }

    /// Adds `dt` to the time accumulator, then makes one tick for each whole
    /// interval while more than one interval is pending, carrying the rest
    /// forward. Returns the number of ticks made. On a blocked tick it stops:
    /// the ticks already made stay, and one interval stays pending so that the
    /// tick is tried again on the next call.
    pub fn advance(&mut self, dt: u64) -> (r: Result<u64, TickError>)
        requires
            old(self).wf(),
        ensures
            final(self).wf(),
            final(self).spec_width() == old(self).spec_width(),
            final(self).spec_height() == old(self).spec_height(),
            final(self).spec_policy() == old(self).spec_policy(),
            final(self).spec_interval() == old(self).spec_interval(),
            ({
                let total = old(self).spec_time() + dt as nat;
                let n = due_ticks(total, old(self).spec_interval());
                let res = run(
                    old(self).spec_board()@,
                    old(self).spec_players(),
                    n,
                    old(self).spec_width(),
                    old(self).spec_height(),
                    old(self).spec_policy(),
                );
                &&& final(self).spec_board()@ == res.0
                &&& final(self).spec_players() == res.1
                &&& res.2 == n ==> r == Ok::<u64, TickError>(n as u64) && final(self).spec_time()
                    == pending_time(total, old(self).spec_interval())
                &&& res.2 < n ==> r == Err::<u64, TickError>(TickError::WouldLeaveBoard)
                    && final(self).spec_time() == old(self).spec_interval()
            }),
            old(self).spec_policy() == EdgePolicy::Wrapping ==> r is Ok,
            forall|q: Point| #![trigger final(self).spec_board().tile(q)]
                in_bounds(q, old(self).spec_width(), old(self).spec_height())
                    && is_occupied(old(self).spec_board().tile(q))
                    ==> is_occupied(final(self).spec_board().tile(q)),
    {
        let interval = self.update_interval;
        let mut t: u128 = self.time as u128 + dt as u128;
        let mut count: u64 = 0;
        let ghost w = self.spec_width();
        let ghost h = self.spec_height();
        let ghost total = self.time as nat + dt as nat;
        let ghost res = run(self.board@, self.players@, due_ticks(total, interval as nat), w, h, self.policy);
        proof {
            if total > interval {
                lemma_due_ticks_bound(total, interval as nat);
            }
            lemma_run_wrapping_completes(self.board@, self.players@, due_ticks(total, interval as nat), w, h);
        }
        while t > interval as u128
            invariant
                self.wf(),
                self.spec_width() == w,
                self.spec_height() == h,
                w == old(self).spec_width(),
                h == old(self).spec_height(),
                interval == old(self).update_interval,
                total == old(self).time + dt,
                res == run(old(self).board@, old(self).players@, due_ticks(total, interval as nat), w, h, old(self).policy),
                self.policy == old(self).policy,
                self.update_interval == interval,
                self.time == old(self).time,
                count + due_ticks(t as nat, interval as nat) == due_ticks(total, interval as nat),
                due_ticks(total, interval as nat) <= dt,
                pending_time(t as nat, interval as nat) == pending_time(total, interval as nat),
                ({
                    let cur = run(self.board@, self.players@, due_ticks(t as nat, interval as nat), w, h, self.policy);
                    &&& cur.0 == res.0
                    &&& cur.1 == res.1
                    &&& cur.2 + count == res.2
                }),
                self.policy == EdgePolicy::Wrapping ==> res.2 == due_ticks(total, interval as nat),
                forall|q: Point| #![trigger self.board.tile(q)]
                    in_bounds(q, w, h) && is_occupied(old(self).board.tile(q)) ==> is_occupied(self.board.tile(q)),
            decreases t,
        {
            proof {
                lemma_due_ticks_bound(t as nat, interval as nat);
            }
            match self.tick() {
                Ok(()) => {},
                Err(e) => {
                    self.time = interval;
                    return Err(e);
                },
            }
            t = t - interval as u128;
            count = count + 1;
        }
        self.time = t as u64;
        Ok(count)
    }

    /// Routes a key press to every agent; each turns only on its own keys.
    pub fn press_button(&mut self, button: KeyCode)
        requires
            old(self).wf(),
        ensures
            final(self).wf(),
            final(self).spec_players() == turn_all(old(self).spec_players(), button),
            final(self).spec_board() == old(self).spec_board(),
            final(self).spec_policy() == old(self).spec_policy(),
            final(self).spec_interval() == old(self).spec_interval(),
            final(self).spec_time() == old(self).spec_time(),
    {
        let ghost old_players = self.players@;
        let mut i: usize = 0;
        while i < self.players.len()
            invariant
                self.board == old(self).board,
                self.policy == old(self).policy,
                self.update_interval == old(self).update_interval,
                self.time == old(self).time,
                self.players@.len() == old_players.len(),
                i <= old_players.len(),
                forall|j: int| 0 <= j < i ==> self.players@[j] == turned(#[trigger] old_players[j], button),
                forall|j: int| i <= j < old_players.len() ==> self.players@[j] == #[trigger] old_players[j],
            decreases old_players.len() - i,
        {
            let mut p = self.players[i];
            p.turn(button);
            self.players.set(i, p);
            i += 1;
        }
        proof {
            assert(self.players@ =~= turn_all(old_players, button));
            assert forall|j: int| 0 <= j < self.players@.len() implies in_bounds(
                #[trigger] self.players@[j].pos,
                self.spec_width(),
                self.spec_height(),
            ) by {
                assert(in_bounds(old_players[j].pos, self.spec_width(), self.spec_height()));
            }
        }
    }

    pub fn board(&self) -> (r: &Board)
        ensures
            *r == self.spec_board(),
    {
        &self.board
    }

    pub fn players(&self) -> (r: &Vec<Player>)
        ensures
            r@ == self.spec_players(),
    {
        &self.players
    }

    pub fn policy(&self) -> (r: EdgePolicy)
        ensures
            r == self.spec_policy(),
    {
        self.policy
    }

    pub fn update_interval(&self) -> (r: u64)
        ensures
            r == self.spec_interval(),
    {
        self.update_interval
    }

    /// The time accumulated and not yet spent on ticks.
    pub fn pending(&self) -> (r: u64)
        ensures
            r == self.spec_time(),
    {
        self.time
    }
}

} // verus!
