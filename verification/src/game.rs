//! The pieces of a game: directions, teams, positions, players and squares.

use vstd::prelude::*;
use vstd::std_specs::ops::AddSpecImpl;
use vstd::string::*;
use crate::board::Board;
use crate::roster::Roster;
use crate::text::{decimal, decimal_text};

verus! {

/// One of the five moves open to a unit on each turn.
#[derive(Debug, Clone, Copy, Hash, PartialEq, Eq, PartialOrd, Ord, Structural)]
pub enum Direction {
    Null,
    Up,
    Down,
    Left,
    Right,
}

impl Direction {
    /// The displacement of one step in this direction. The y axis points
    /// down, so `Up` lowers y.
    pub open spec fn spec_vector(self) -> Position {
        match self {
            Direction::Null => Position { x: 0, y: 0 },
            Direction::Up => Position { x: 0, y: -1i32 },
            Direction::Down => Position { x: 0, y: 1 },
            Direction::Left => Position { x: -1i32, y: 0 },
            Direction::Right => Position { x: 1, y: 0 },
        }
    }

    /// The displacement of one step in this direction.
    #[verifier::when_used_as_spec(spec_vector)]
    pub fn vector(self) -> (v: Position)
        ensures
            v == self.spec_vector(),
    {
        match self {
            Direction::Null => Position::new(0, 0),
            Direction::Up => Position::new(0, -1),
            Direction::Down => Position::new(0, 1),
            Direction::Left => Position::new(-1, 0),
            Direction::Right => Position::new(1, 0),
        }
    }

    /// The word that stands for this move where moves are written down.
    pub open spec fn token(self) -> Seq<char> {
        match self {
            Direction::Null => "idle"@,
            Direction::Up => "up"@,
            Direction::Down => "down"@,
            Direction::Left => "left"@,
            Direction::Right => "right"@,
        }
    }

    /// The word that stands for this move where moves are written down.
    pub fn to_string(&self) -> (s: String)
        ensures
            s@ == self.token(),
    {
        match self {
            Direction::Null => String::from_str("idle"),
            Direction::Up => String::from_str("up"),
            Direction::Down => String::from_str("down"),
            Direction::Left => String::from_str("left"),
            Direction::Right => String::from_str("right"),
        }
    }
}

/// The side that controls a square or that a player belongs to. `Null` is
/// no side at all.
#[derive(Debug, Clone, Copy, Hash, PartialEq, Eq, PartialOrd, Ord, Structural)]
pub enum Team {
    Null,
    Red,
    Green,
    Blue,
}

/// A point of the grid, or a displacement between two points.
#[derive(Debug, Clone, Copy, PartialEq, Eq, Structural)]
pub struct Position {
    pub x: i32,
    pub y: i32,
}

impl Position {
    /// The position with the given coordinates.
    pub fn new(x: i32, y: i32) -> (p: Position)
        ensures
            p.x == x,
            p.y == y,
    {
        Position { x, y }
    }

    /// The position as text: both coordinates in decimal, in round
    /// brackets, with a comma and a space between them.
    pub open spec fn text(self) -> Seq<char> {
        seq!['('] + decimal(self.x as int) + seq![',', ' '] + decimal(self.y as int) + seq![')']
    }

    /// The position as text.
    pub fn to_string(&self) -> (s: String)
        ensures
            s@ == self.text(),
    {
        proof {
            reveal_strlit("(");
            reveal_strlit(", ");
            reveal_strlit(")");
        }
        let mut s = String::from_str("(");
        let x = decimal_text(self.x);
        s.append(x.as_str());
        s.append(", ");
        let y = decimal_text(self.y);
        s.append(y.as_str());
        s.append(")");
        assert(s@ =~= self.text());
        s
    }
}

impl core::ops::Add<Position> for Position {
    type Output = Position;

    /// Adds coordinate by coordinate.
    fn add(self, rhs: Position) -> (sum: Position) {
        Position::new(self.x + rhs.x, self.y + rhs.y)
    }
}

impl AddSpecImpl<Position> for Position {
    open spec fn obeys_add_spec() -> bool {
        true
    }

    /// Both sums must be coordinates again.
    open spec fn add_req(self, rhs: Position) -> bool {
        &&& i32::MIN <= self.x + rhs.x <= i32::MAX
        &&& i32::MIN <= self.y + rhs.y <= i32::MAX
    }

    open spec fn add_spec(self, rhs: Position) -> Position {
        Position { x: (self.x + rhs.x) as i32, y: (self.y + rhs.y) as i32 }
    }
}

/// Someone who plays, and the side they play for.
#[derive(Debug)]
pub struct Player {
    pub team: Team,
    pub name: String,
}

/// One cell of the grid. Who controls it and who stands on it are
/// independent of each other.
#[derive(Debug, Clone)]
pub struct Square {
    pub controlled_by: Team,
    pub occupied_by_player: Option<String>,
}

impl Square {
    /// The name of the player on the square, if there is one.
    pub open spec fn occupant(&self) -> Option<Seq<char>> {
        match self.occupied_by_player {
            Some(name) => Some(name@),
            None => None,
        }
    }

    /// An empty square under the control of `team`.
    pub fn new(team: Team) -> (s: Square)
        ensures
            s.controlled_by == team,
            s.occupied_by_player is None,
    {
        Square { controlled_by: team, occupied_by_player: None }
    }
}

/// A snapshot of a game: the player we move, everyone who plays, and the
/// boards so far, oldest first.
#[derive(Debug)]
pub struct Game {
    pub us: Option<String>,
    pub players: Roster<Player>,
    pub timeline: Vec<Board>,
}

impl Game {
    /// The name of the player we move; the empty name while none is set.
    pub open spec fn our_name(&self) -> Seq<char> {
        match self.us {
            Some(name) => name@,
            None => Seq::empty(),
        }
    }

    /// Whether the game has a board.
    pub open spec fn has_map(&self) -> bool {
        self.timeline@.len() > 0
    }

    /// The current board: the newest of the timeline.
    pub open spec fn current(&self) -> Board
        recommends
            self.has_map(),
    {
        self.timeline@.last()
    }

    /// Whether our player is set and stands on the current board.
    pub open spec fn on_map(&self) -> bool {
        &&& self.has_map()
        &&& self.us is Some
        &&& self.current().roster()@.dom().contains(self.our_name())
    }

    /// Whether our player is set and is one of the players of the game.
    pub open spec fn enrolled(&self) -> bool {
        &&& self.us is Some
        &&& self.players@.dom().contains(self.our_name())
    }

    /// Whether a move can be chosen: our player stands on the current board
    /// and is a player of the game, as is everyone else on that board.
    pub open spec fn playable(&self) -> bool {
        &&& self.on_map()
        &&& self.enrolled()
        &&& forall|i: int|
            0 <= i < self.current().roster().names().len() ==> self.players@.dom().contains(
                #[trigger] self.current().roster().names()[i],
            )
    }

    /// Where our player stands on the current board.
    pub open spec fn spec_our_position(&self) -> Position
        recommends
            self.on_map(),
    {
        self.current().roster()@[self.our_name()]
    }

    /// The side our player is on.
    pub open spec fn spec_our_team(&self) -> Team
        recommends
            self.enrolled(),
    {
        self.players@[self.our_name()].team
    }

    /// Where our player stands on the current board.
    #[verifier::when_used_as_spec(spec_our_position)]
    pub fn our_position(&self) -> (p: Position)
        requires
            self.on_map(),
        ensures
            p == self.spec_our_position(),
    {
        let board = self.map();
        match &self.us {
            Some(name) => match board.players().get(name.as_str()) {
                Some(position) => *position,
                None => vstd::pervasive::unreached(),
            },
            None => vstd::pervasive::unreached(),
        }
    }

    /// The side our player is on.
    #[verifier::when_used_as_spec(spec_our_team)]
    pub fn our_team(&self) -> (t: Team)
        requires
            self.enrolled(),
        ensures
            t == self.spec_our_team(),
    {
        match &self.us {
            Some(name) => match self.players.get(name.as_str()) {
                Some(player) => player.team,
                None => vstd::pervasive::unreached(),
            },
            None => vstd::pervasive::unreached(),
        }
    }

    /// Whether a move can be chosen from this snapshot.
    #[verifier::when_used_as_spec(playable)]
    pub fn is_playable(&self) -> (b: bool)
        ensures
            b == self.playable(),
    {
        if self.timeline.len() == 0 {
            return false;
        }
        let board = &self.timeline[self.timeline.len() - 1];
        let known = match &self.us {
            Some(name) => board.players().contains(name.as_str()) && self.players.contains(
                name.as_str(),
            ),
            None => false,
        };
        if !known {
            return false;
        }
        let standing = board.players();
        let mut i: usize = 0;
        while i < standing.len()
            invariant
                i <= standing.names().len(),
                *standing == self.current().roster(),
                forall|j: int|
                    0 <= j < i ==> self.players@.dom().contains(#[trigger] standing.names()[j]),
            decreases standing.names().len() - i,
        {
            if !self.players.contains(standing.name_at(i).as_str()) {
                return false;
            }
            i += 1;
        }
        true
    }

    /// The current board.
    pub fn map(&self) -> (board: &Board)
        requires
            self.has_map(),
        ensures
            *board == self.current(),
    {
        &self.timeline[self.timeline.len() - 1]
    }
}

} // verus!
