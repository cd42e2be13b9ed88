use vstd::prelude::*;

use crate::direction::{left_of, right_of, Direction};

verus! {

/// A key identifier, as delivered by the input layer.
pub type KeyCode = u32;

/// A board coordinate: `x` is the column, `y` the row, `(0, 0)` the top left.
#[derive(Copy, Clone, Debug, PartialEq, Eq, Structural)]
pub struct Point {
    pub x: usize,
    pub y: usize,
}

/// What happens when a step would leave the board.
#[derive(Copy, Clone, Debug, PartialEq, Eq, Structural)]
pub enum EdgePolicy {
    /// Leaving the board is a caller error: the agent must not face an edge it stands on.
    Clamped,
    /// The board is a torus: leaving one edge re-enters at the opposite one.
    Wrapping,
}

pub open spec fn in_bounds(p: Point, width: nat, height: nat) -> bool {
    p.x < width && p.y < height
}

/// Whether a step from `p` heading `d` would leave a `width` x `height` board.
pub open spec fn at_edge(p: Point, d: Direction, width: nat, height: nat) -> bool {
    match d {
        Direction::North => p.y == 0,
        Direction::South => p.y + 1 >= height,
        Direction::West => p.x == 0,
        Direction::East => p.x + 1 >= width,
    }
}

/// The cell one step from `p` heading `d`, wrapping round the edges.
pub open spec fn next_pos(p: Point, d: Direction, width: nat, height: nat) -> Point {
    match d {
        Direction::North => Point { y: if p.y > 0 { (p.y - 1) as usize } else { (height - 1) as usize }, ..p },
        Direction::South => Point { y: if p.y + 1 < height { (p.y + 1) as usize } else { 0 }, ..p },
        Direction::West => Point { x: if p.x > 0 { (p.x - 1) as usize } else { (width - 1) as usize }, ..p },
        Direction::East => Point { x: if p.x + 1 < width { (p.x + 1) as usize } else { 0 }, ..p },
    }
}

/// Whether a step under `policy` is defined from `p` heading `d`.
pub open spec fn can_step(p: Point, d: Direction, width: nat, height: nat, policy: EdgePolicy) -> bool {
    &&& in_bounds(p, width, height)
    &&& (policy == EdgePolicy::Clamped ==> !at_edge(p, d, width, height))
}

/// An agent: where it is, where it heads, who it is, and its two turn keys.
#[derive(Copy, Clone, Debug, PartialEq, Eq, Structural)]
pub struct Player {
    pub pos: Point,
    pub id: usize,
    pub direction: Direction,
    pub left_key: KeyCode,
    pub right_key: KeyCode,
}

/// The agent `p` after `button` was pressed.
pub open spec fn turned(p: Player, button: KeyCode) -> Player {
    if button == p.left_key {
        Player { direction: left_of(p.direction), ..p }
    } else if button == p.right_key {
        Player { direction: right_of(p.direction), ..p }
    } else {
        p
    }
}

/// The agent `p` after one step on a `width` x `height` board.
pub open spec fn stepped(p: Player, width: nat, height: nat) -> Player {
    Player { pos: next_pos(p.pos, p.direction, width, height), ..p }
}

impl Player {
    /// Turns left on the left key, right on the right key, and ignores any other key.
    pub fn turn(&mut self, button: KeyCode)
        ensures
            *final(self) == turned(*old(self), button),
            button != old(self).left_key && button != old(self).right_key ==> *final(self)
                == *old(self),
    {
        if self.left_key == button {
            self.turn_left();
        } else if self.right_key == button {
            self.turn_right();
        }
    }

    pub fn turn_left(&mut self)
        ensures
            *final(self) == (Player { direction: left_of(old(self).direction), ..*old(self) }),
    {
        self.direction = self.direction.turned_left();
    }

    pub fn turn_right(&mut self)
        ensures
            *final(self) == (Player { direction: right_of(old(self).direction), ..*old(self) }),
    {
        self.direction = self.direction.turned_right();
    }

    /// Moves one cell in the current direction; only the position changes.
    pub fn step(&mut self, width: usize, height: usize, policy: EdgePolicy)
        requires
            can_step(old(self).pos, old(self).direction, width as nat, height as nat, policy),
        ensures
            *final(self) == stepped(*old(self), width as nat, height as nat),
            in_bounds(final(self).pos, width as nat, height as nat),
    {
        match policy {
            EdgePolicy::Clamped => match self.direction {
                Direction::North => self.pos.y = self.pos.y - 1,
                Direction::South => self.pos.y = self.pos.y + 1,
                Direction::West => self.pos.x = self.pos.x - 1,
                Direction::East => self.pos.x = self.pos.x + 1,
            },
            EdgePolicy::Wrapping => match self.direction {
                Direction::North => {
                    self.pos.y = if self.pos.y > 0 { self.pos.y - 1 } else { height - 1 };
                },
                Direction::South => {
                    self.pos.y = if self.pos.y < height - 1 { self.pos.y + 1 } else { 0 };
                },
                Direction::West => {
                    self.pos.x = if self.pos.x > 0 { self.pos.x - 1 } else { width - 1 };
                },
                Direction::East => {
                    self.pos.x = if self.pos.x < width - 1 { self.pos.x + 1 } else { 0 };
                },
            },
        }
    }
}

/// Away from the edge it faces, a step changes exactly one coordinate by
/// exactly one unit and keeps everything else, the direction included.
pub proof fn lemma_step_moves_one_unit(p: Player, width: usize, height: usize)
    requires
        in_bounds(p.pos, width as nat, height as nat),
        !at_edge(p.pos, p.direction, width as nat, height as nat),
    ensures
        ({
            let q = stepped(p, width as nat, height as nat);
            &&& q.direction == p.direction
            &&& q.id == p.id
            &&& q.left_key == p.left_key
            &&& q.right_key == p.right_key
            &&& in_bounds(q.pos, width as nat, height as nat)
            &&& {
                ||| q.pos.x == p.pos.x && (q.pos.y == p.pos.y + 1 || q.pos.y + 1 == p.pos.y)
                ||| q.pos.y == p.pos.y && (q.pos.x == p.pos.x + 1 || q.pos.x + 1 == p.pos.x)
            }
        }),
{
}

/// Wrapping: West from the first column re-enters at the last, East from the
/// last column re-enters at the first, and likewise North and South on rows.
pub proof fn lemma_wrapping_edges(x: usize, y: usize, width: usize, height: usize)
    requires
        x < width,
        y < height,
    ensures
        next_pos(Point { x: 0, y }, Direction::West, width as nat, height as nat) == (Point {
            x: (width - 1) as usize,
            y,
        }),
        next_pos(Point { x: (width - 1) as usize, y }, Direction::East, width as nat, height as nat) == (
        Point { x: 0, y }),
        next_pos(Point { x, y: 0 }, Direction::North, width as nat, height as nat) == (Point {
            x,
            y: (height - 1) as usize,
        }),
        next_pos(Point { x, y: (height - 1) as usize }, Direction::South, width as nat, height as nat) == (
        Point { x, y: 0 }),
{
}

/// The agent `p` after each of `buttons` was pressed, in order.
pub open spec fn turned_by(p: Player, buttons: Seq<KeyCode>) -> Player
    decreases buttons.len(),
{
    if buttons.len() == 0 {
        p
    } else {
        turned(turned_by(p, buttons.drop_last()), buttons.last())
    }
}

/// Whether `k` is one of the turn keys of `p`.
pub open spec fn is_key_of(p: Player, k: KeyCode) -> bool {
    k == p.left_key || k == p.right_key
}

/// Whether `a` and `b` share no turn key.
pub open spec fn disjoint_keys(a: Player, b: Player) -> bool {
    !is_key_of(b, a.left_key) && !is_key_of(b, a.right_key)
}

/// Key presses never change an agent's keys, id or position.
pub proof fn lemma_turned_by_keeps_keys(p: Player, buttons: Seq<KeyCode>)
    ensures
        turned_by(p, buttons).left_key == p.left_key,
        turned_by(p, buttons).right_key == p.right_key,
        turned_by(p, buttons).id == p.id,
        turned_by(p, buttons).pos == p.pos,
    decreases buttons.len(),
{
    if buttons.len() > 0 {
        lemma_turned_by_keeps_keys(p, buttons.drop_last());
    }
}

/// Agents with disjoint keys do not affect each other: whatever the sequence
/// of presses, `b` ends as it would had the presses of `a`'s keys been left
/// out, and the other way round.
pub proof fn lemma_disjoint_agents_independent(a: Player, b: Player, buttons: Seq<KeyCode>)
    requires
        disjoint_keys(a, b),
    ensures
        turned_by(b, buttons) == turned_by(b, buttons.filter(|k: KeyCode| !is_key_of(a, k))),
        turned_by(a, buttons) == turned_by(a, buttons.filter(|k: KeyCode| !is_key_of(b, k))),
        turned_by(b, buttons).direction == turned_by(b, buttons.filter(|k: KeyCode| !is_key_of(a, k))).direction,
        turned_by(a, buttons).direction == turned_by(a, buttons.filter(|k: KeyCode| !is_key_of(b, k))).direction,
{
    lemma_ignores_other_keys(a, b, buttons);
    lemma_ignores_other_keys(b, a, buttons);
}

/// Presses of `a`'s keys leave `b` as it is when `b` does not share them.
proof fn lemma_ignores_other_keys(a: Player, b: Player, buttons: Seq<KeyCode>)
    requires
        !is_key_of(b, a.left_key),
        !is_key_of(b, a.right_key),
    ensures
        turned_by(b, buttons) == turned_by(b, buttons.filter(|k: KeyCode| !is_key_of(a, k))),
    decreases buttons.len(),
{
    let f = |k: KeyCode| !is_key_of(a, k);
    reveal_with_fuel(Seq::filter, 1);
    if buttons.len() > 0 {
        let rest = buttons.drop_last();
        let last = buttons.last();
        lemma_ignores_other_keys(a, b, rest);
        let kept = rest.filter(f);
        if f(last) {
            assert(buttons.filter(f) == kept.push(last));
            assert(kept.push(last).drop_last() =~= kept);
        } else {
            assert(buttons.filter(f) == kept);
            lemma_turned_by_keeps_keys(b, rest);
        }
    }
}

} // verus!
