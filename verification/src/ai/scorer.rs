//! What each move shows: the worth of the squares along its ray, and
//! whether it leads towards the target.

use vstd::prelude::*;
use crate::ai::target::{find_target_square, is_target};
use crate::board::Board;
use crate::game::{Direction, Game, Position, Square, Team};

verus! {

/// What a free square is worth to a unit that could move onto it.
#[derive(Debug, Clone, Copy, PartialEq, Eq, Structural)]
pub enum Worth {
    /// No side controls the square.
    Neutral,
    /// Another side controls the square.
    Opponent,
    /// Our own side controls the square already.
    Own,
}

impl Worth {
    /// The worth in hundredths of a point.
    pub open spec fn spec_percent(self) -> u32 {
        match self {
            Worth::Neutral => 80,
            Worth::Opponent => 100,
            Worth::Own => 1,
        }
    }

    /// The worth in hundredths of a point.
    #[verifier::when_used_as_spec(spec_percent)]
    pub fn percent(self) -> (p: u32)
        ensures
            p == self.spec_percent(),
    {
        match self {
            Worth::Neutral => 80,
            Worth::Opponent => 100,
            Worth::Own => 1,
        }
    }
}

/// After each step along a ray the worth of what follows shrinks to this
/// many tenths.
pub const FALLOFF_TENTHS: u32 = 7;

/// The points that a direction gains where it leads towards the target.
pub const ALIGNMENT_BONUS: u32 = 2;

/// What `square` is worth to a unit of `our_team`.
pub open spec fn worth_of(square: Square, our_team: Team) -> Worth {
    if square.controlled_by == Team::Null {
        Worth::Neutral
    } else if square.controlled_by != our_team {
        Worth::Opponent
    } else {
        Worth::Own
    }
}

/// Whether a ray passes the cell at column `x` of row `y`: the board has the
/// cell and nobody stands on it.
pub open spec fn passes(board: Board, x: int, y: int) -> bool {
    board.holds(x, y) && board.cell(x, y).occupied_by_player is None
}

/// Whether `seen` is what a ray shows that leaves `start` in steps of
/// `vector`: the worth of each cell it passes, nearest first, up to the
/// first cell that it does not pass. The ray of the zero vector shows
/// nothing.
pub open spec fn is_ray(
    board: Board,
    start: Position,
    vector: Position,
    our_team: Team,
    seen: Seq<Worth>,
) -> bool {
    if vector.x == 0 && vector.y == 0 {
        seen.len() == 0
    } else {
        &&& forall|i: int|
            0 <= i < seen.len() ==> {
                &&& passes(board, start.x + (i + 1) * vector.x, start.y + (i + 1) * vector.y)
                &&& (#[trigger] seen[i]) == worth_of(
                    board.cell(start.x + (i + 1) * vector.x, start.y + (i + 1) * vector.y),
                    our_team,
                )
            }
        &&& !passes(
            board,
            start.x + (seen.len() + 1) * vector.x,
            start.y + (seen.len() + 1) * vector.y,
        )
    }
}

/// What `square` is worth to a unit of `our_team`.
pub fn appraise(square: &Square, our_team: Team) -> (worth: Worth)
    ensures
        worth == worth_of(*square, our_team),
{
    if square.controlled_by == Team::Null {
        Worth::Neutral
    } else if square.controlled_by != our_team {
        Worth::Opponent
    } else {
        Worth::Own
    }
}

/// One more step along a ray: `(n + 1) * v` is `n * v + v`.
proof fn lemma_next_step(n: int, v: int)
    ensures
        (n + 1) * v == n * v + v,
{
    assert((n + 1) * v == n * v + v) by (nonlinear_arith);
}

/// What a ray shows that leaves `starting` in steps of `vector`: the worth
/// of each free square on its way, nearest first. The ray ends before the
/// first square that is occupied or outside the board.
pub fn squares_in_direction(
    board: &Board,
    starting: Position,
    vector: Position,
    our_team: Team,
) -> (seen: Vec<Worth>)
    ensures
        is_ray(*board, starting, vector, our_team, seen@),
{
    let mut seen: Vec<Worth> = Vec::new();
    if vector.x == 0 && vector.y == 0 {
        return seen;
    }
    let width = board.width();
    let height = board.height();
    let mut x: i128 = starting.x as i128;
    let mut y: i128 = starting.y as i128;
    loop
        invariant
            !(vector.x == 0 && vector.y == 0),
            width == board.spec_width(),
            height == board.spec_height(),
            x == starting.x + seen@.len() * vector.x,
            y == starting.y + seen@.len() * vector.y,
            seen@.len() > 0 ==> board.holds(x as int, y as int),
            forall|i: int|
                0 <= i < seen@.len() ==> {
                    &&& passes(
                        *board,
                        starting.x + (i + 1) * vector.x,
                        starting.y + (i + 1) * vector.y,
                    )
                    &&& (#[trigger] seen@[i]) == worth_of(
                        board.cell(
                            starting.x + (i + 1) * vector.x,
                            starting.y + (i + 1) * vector.y,
                        ),
                        our_team,
                    )
                },
        ensures
            is_ray(*board, starting, vector, our_team, seen@),
        decreases
            (if vector.x > 0 {
                width - x
            } else if vector.x < 0 {
                x + 1
            } else if vector.y > 0 {
                height - y
            } else {
                y + 1
            }),
    {
        proof {
            lemma_next_step(seen@.len() as int, vector.x as int);
            lemma_next_step(seen@.len() as int, vector.y as int);
        }
        let next_x: i128 = x + vector.x as i128;
        let next_y: i128 = y + vector.y as i128;
        if next_x < 0 || next_y < 0 || next_x >= width as i128 || next_y >= height as i128 {
            break ;
        }
        let square = board.square_at(next_x as usize, next_y as usize);
        if square.occupied_by_player.is_some() {
            break ;
        }
        seen.push(appraise(square, our_team));
        x = next_x;
        y = next_y;
    }
    seen
}

/// Whether a move in `direction` from `pos` leads towards `target`: along
/// the axis of the move the target lies on that side. Staying leads towards
/// the target only on the target itself.
pub open spec fn heads_for(direction: Direction, target: Position, pos: Position) -> bool {
    match direction {
        Direction::Null => target == pos,
        Direction::Left => target.x < pos.x,
        Direction::Right => target.x > pos.x,
        Direction::Up => target.y < pos.y,
        Direction::Down => target.y > pos.y,
    }
}

/// Whether a move in `direction` from `pos` leads towards `target`.
#[verifier::when_used_as_spec(heads_for)]
pub fn correct_way(direction: Direction, target: Position, pos: Position) -> (b: bool)
    ensures
        b == heads_for(direction, target, pos),
{
    match direction {
        Direction::Null => target.x == pos.x && target.y == pos.y,
        Direction::Left => target.x < pos.x,
        Direction::Right => target.x > pos.x,
        Direction::Up => target.y < pos.y,
        Direction::Down => target.y > pos.y,
    }
}

/// The five moves in the order in which they are considered.
pub open spec fn candidates() -> Seq<Direction> {
    seq![Direction::Null, Direction::Left, Direction::Right, Direction::Up, Direction::Down]
}

/// What is known of one move before it is scored.
pub struct Candidate {
    /// The move.
    pub direction: Direction,
    /// What the ray in that direction shows.
    pub squares: Vec<Worth>,
    /// Whether the move leads towards the target.
    pub aligned: bool,
}

/// What is known of a turn before the moves are scored.
pub struct Survey {
    /// The cell to make for and the reason, if there is one.
    pub target: Option<(Position, String)>,
    /// The five moves, in the order in which they are considered.
    pub candidates: Vec<Candidate>,
}

/// Whether `survey` is the survey of `game`.
pub open spec fn is_survey(game: Game, survey: Survey) -> bool {
    &&& is_target(game, survey.target)
    &&& survey.candidates@.len() == 5
    &&& forall|i: int|
        0 <= i < 5 ==> {
            &&& (#[trigger] survey.candidates@[i]).direction == candidates()[i]
            &&& is_ray(
                game.current(),
                game.spec_our_position(),
                candidates()[i].spec_vector(),
                game.spec_our_team(),
                survey.candidates@[i].squares@,
            )
            &&& survey.candidates@[i].aligned == (survey.target is Some && heads_for(
                candidates()[i],
                survey.target.unwrap().0,
                game.spec_our_position(),
            ))
        }
}

/// Looks at the turn: finds the target and, for each of the five moves,
/// what its ray shows and whether it leads towards the target.
pub fn survey(game: &Game) -> (found: Survey)
    requires
        game.playable(),
    ensures
        is_survey(*game, found),
{
    let pos = game.our_position();
    let board = game.map();
    let team = game.our_team();
    let target = find_target_square(game);
    let order = [
        Direction::Null,
        Direction::Left,
        Direction::Right,
        Direction::Up,
        Direction::Down,
    ];
    let mut found: Vec<Candidate> = Vec::new();
    let mut i: usize = 0;
    while i < 5
        invariant
            i <= 5,
            game.playable(),
            pos == game.spec_our_position(),
            *board == game.current(),
            team == game.spec_our_team(),
            order@ == candidates(),
            found@.len() == i,
            forall|k: int|
                0 <= k < i ==> {
                    &&& (#[trigger] found@[k]).direction == candidates()[k]
                    &&& is_ray(
                        game.current(),
                        game.spec_our_position(),
                        candidates()[k].spec_vector(),
                        game.spec_our_team(),
                        found@[k].squares@,
                    )
                    &&& found@[k].aligned == (target is Some && heads_for(
                        candidates()[k],
                        target.unwrap().0,
                        game.spec_our_position(),
                    ))
                },
        decreases 5 - i,
    {
        let direction = order[i];
        let squares = squares_in_direction(board, pos, direction.vector(), team);
        let aligned = match &target {
            Some(aim) => correct_way(direction, aim.0, pos),
            None => false,
        };
        found.push(Candidate { direction, squares, aligned });
        i += 1;
    }
    Survey { target, candidates: found }
}

/// The ray of the zero vector shows nothing, whatever the board holds.
pub proof fn law_staying_shows_nothing(
    board: Board,
    start: Position,
    our_team: Team,
    seen: Seq<Worth>,
)
    requires
        is_ray(board, start, Direction::Null.spec_vector(), our_team, seen),
    ensures
        seen.len() == 0,
{
}

/// A ray whose first cell is occupied or outside the board shows nothing.
pub proof fn law_blocked_ray_shows_nothing(
    board: Board,
    start: Position,
    vector: Position,
    our_team: Team,
    seen: Seq<Worth>,
)
    requires
        is_ray(board, start, vector, our_team, seen),
        !passes(board, start.x + vector.x, start.y + vector.y),
    ensures
        seen.len() == 0,
{
    if !(vector.x == 0 && vector.y == 0) && seen.len() > 0 {
        assert((0 + 1) * vector.x == vector.x && (0 + 1) * vector.y == vector.y)
            by (nonlinear_arith);
        assert(seen[0] == worth_of(
            board.cell(start.x + (0 + 1) * vector.x, start.y + (0 + 1) * vector.y),
            our_team,
        ));
    }
}

/// A start and a vector have one ray only.
pub proof fn law_one_ray(
    board: Board,
    start: Position,
    vector: Position,
    our_team: Team,
    one: Seq<Worth>,
    other: Seq<Worth>,
)
    requires
        is_ray(board, start, vector, our_team, one),
        is_ray(board, start, vector, our_team, other),
    ensures
        one == other,
{
    if !(vector.x == 0 && vector.y == 0) {
        if one.len() < other.len() {
            let n = one.len() as int;
            assert(other[n] == worth_of(
                board.cell(start.x + (n + 1) * vector.x, start.y + (n + 1) * vector.y),
                our_team,
            ));
        }
        if other.len() < one.len() {
            let n = other.len() as int;
            assert(one[n] == worth_of(
                board.cell(start.x + (n + 1) * vector.x, start.y + (n + 1) * vector.y),
                our_team,
            ));
        }
        assert(one.len() == other.len());
        assert forall|i: int| 0 <= i < one.len() implies one[i] == other[i] by {
            let there = board.cell(start.x + (i + 1) * vector.x, start.y + (i + 1) * vector.y);
            assert(one[i] == worth_of(there, our_team));
            assert(other[i] == worth_of(there, our_team));
        }
    }
    assert(one =~= other);
}

} // verus!
