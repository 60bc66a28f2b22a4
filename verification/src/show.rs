//! What a game looks like in numbers: players and squares by team.

use vstd::prelude::*;
use crate::board::Board;
use crate::game::{Game, Player, Square, Team};
use crate::roster::Roster;

verus! {

/// A count for each team.
#[derive(Debug, Clone, Copy, PartialEq, Eq, Structural)]
pub struct Tally {
    pub null: u128,
    pub red: u128,
    pub green: u128,
    pub blue: u128,
}

impl Tally {
    /// The count of `team`.
    pub open spec fn spec_of(self, team: Team) -> u128 {
        match team {
            Team::Null => self.null,
            Team::Red => self.red,
            Team::Green => self.green,
            Team::Blue => self.blue,
        }
    }

    /// The count of `team`.
    #[verifier::when_used_as_spec(spec_of)]
    pub fn of(self, team: Team) -> (n: u128)
        ensures
            n == self.spec_of(team),
    {
        match team {
            Team::Null => self.null,
            Team::Red => self.red,
            Team::Green => self.green,
            Team::Blue => self.blue,
        }
    }

    /// The tally with one more for `team`.
    fn with_one_more(self, team: Team) -> (more: Tally)
        requires
            self.spec_of(team) < u128::MAX,
        ensures
            more.spec_of(team) == self.spec_of(team) + 1,
            forall|other: Team| other != team ==> more.spec_of(other) == self.spec_of(other),
    {
        match team {
            Team::Null => Tally { null: self.null + 1, ..self },
            Team::Red => Tally { red: self.red + 1, ..self },
            Team::Green => Tally { green: self.green + 1, ..self },
            Team::Blue => Tally { blue: self.blue + 1, ..self },
        }
    }
}

/// How many of the players are on `team`.
pub open spec fn players_on(players: Seq<Player>, team: Team) -> nat
    decreases players.len(),
{
    if players.len() == 0 {
        0
    } else {
        players_on(players.drop_last(), team) + if players.last().team == team {
            1nat
        } else {
            0nat
        }
    }
}

/// How many of the squares of a row `team` controls.
pub open spec fn squares_in_row(row: Seq<Square>, team: Team) -> nat
    decreases row.len(),
{
    if row.len() == 0 {
        0
    } else {
        squares_in_row(row.drop_last(), team) + if row.last().controlled_by == team {
            1nat
        } else {
            0nat
        }
    }
}

/// How many of the squares of a grid `team` controls.
pub open spec fn squares_of_team(grid: Seq<Vec<Square>>, team: Team) -> nat
    decreases grid.len(),
{
    if grid.len() == 0 {
        0
    } else {
        squares_of_team(grid.drop_last(), team) + squares_in_row(grid.last()@, team)
    }
}

/// How many players each team has.
pub fn count_players(players: &Roster<Player>) -> (tally: Tally)
    ensures
        forall|team: Team| tally.spec_of(team) == players_on(players.values(), team),
{
    let mut tally = Tally { null: 0, red: 0, green: 0, blue: 0 };
    let mut i: usize = 0;
    assert(players.values().take(0) =~= Seq::<Player>::empty());
    while i < players.len()
        invariant
            i <= players.values().len(),
            forall|team: Team|
                tally.spec_of(team) == players_on(players.values().take(i as int), team),
            forall|team: Team| tally.spec_of(team) <= i,
        decreases players.values().len() - i,
    {
        let team = players.value_at(i).team;
        proof {
            assert(players.values().take(i + 1).drop_last() =~= players.values().take(i as int));
            assert(players.values().take(i + 1).last() == players.values()[i as int]);
        }
        tally = tally.with_one_more(team);
        i += 1;
    }
    assert(players.values().take(players.values().len() as int) =~= players.values());
    tally
}

/// How many squares of the board each team controls.
pub fn count_squares(board: &Board) -> (tally: Tally)
    ensures
        forall|team: Team| tally.spec_of(team) == squares_of_team(board.grid(), team),
{
    proof {
        use_type_invariant(board);
    }
    let width = board.width();
    let height = board.height();
    let mut tally = Tally { null: 0, red: 0, green: 0, blue: 0 };
    let mut y: usize = 0;
    assert(board.grid().take(0) =~= Seq::<Vec<Square>>::empty());
    while y < height
        invariant
            y <= height,
            board.wf(),
            width == board.spec_width(),
            height == board.spec_height(),
            forall|team: Team|
                tally.spec_of(team) == squares_of_team(board.grid().take(y as int), team),
            forall|team: Team| tally.spec_of(team) <= y * 0xffff_ffff_ffff_ffff,
        decreases height - y,
    {
        let ghost done = tally;
        let ghost row = board.grid()[y as int]@;
        let mut x: usize = 0;
        assert(row.take(0) =~= Seq::<Square>::empty());
        while x < width
            invariant
                x <= width,
                y < height,
                board.wf(),
                width == board.spec_width(),
                height == board.spec_height(),
                row == board.grid()[y as int]@,
                row.len() == width,
                forall|team: Team|
                    tally.spec_of(team) == done.spec_of(team) + squares_in_row(
                        row.take(x as int),
                        team,
                    ),
                forall|team: Team| done.spec_of(team) <= y * 0xffff_ffff_ffff_ffff,
                forall|team: Team| tally.spec_of(team) <= y * 0xffff_ffff_ffff_ffff + x,
            decreases width - x,
        {
            let team = board.square_at(x, y).controlled_by;
            proof {
                assert(row.take(x + 1).drop_last() =~= row.take(x as int));
                assert(row.take(x + 1).last() == row[x as int]);
            }
            tally = tally.with_one_more(team);
            x += 1;
        }
        proof {
            assert(row.take(width as int) =~= row);
            assert(board.grid().take(y + 1).drop_last() =~= board.grid().take(y as int));
            assert(board.grid().take(y + 1).last() == board.grid()[y as int]);
        }
        y += 1;
    }
    assert(board.grid().take(height as int) =~= board.grid());
    tally
}

/// The numbers of a game: its players by team, and the squares of its
/// current board by the team that controls them.
#[derive(Debug, Clone, Copy, PartialEq, Eq, Structural)]
pub struct Report {
    pub players: Tally,
    pub squares: Tally,
    /// The number of squares of the board.
    pub total_squares: u128,
}

/// The numbers of `game`.
pub fn show(game: &Game) -> (report: Report)
    requires
        game.has_map(),
    ensures
        forall|team: Team|
            report.players.spec_of(team) == players_on(game.players.values(), team),
        forall|team: Team|
            report.squares.spec_of(team) == squares_of_team(game.current().grid(), team),
        report.total_squares == game.current().spec_width() * game.current().spec_height(),
{
    let board = game.map();
    let width = board.width() as u128;
    let height = board.height() as u128;
    assert(width * height <= 0xffff_ffff_ffff_ffff * 0xffff_ffff_ffff_ffff) by (nonlinear_arith)
        requires
            0 <= width <= 0xffff_ffff_ffff_ffff,
            0 <= height <= 0xffff_ffff_ffff_ffff,
    ;
    Report {
        players: count_players(&game.players),
        squares: count_squares(board),
        total_squares: width * height,
    }
}

/// Every square of a row is counted for one team.
proof fn lemma_row_counted(row: Seq<Square>)
    ensures
        squares_in_row(row, Team::Null) + squares_in_row(row, Team::Red) + squares_in_row(
            row,
            Team::Green,
        ) + squares_in_row(row, Team::Blue) == row.len(),
    decreases row.len(),
{
    if row.len() > 0 {
        lemma_row_counted(row.drop_last());
    }
}

/// Every square of a grid whose rows are `width` wide is counted for one
/// team.
proof fn lemma_grid_counted(grid: Seq<Vec<Square>>, width: int)
    requires
        forall|y: int| 0 <= y < grid.len() ==> (#[trigger] grid[y])@.len() == width,
    ensures
        squares_of_team(grid, Team::Null) + squares_of_team(grid, Team::Red) + squares_of_team(
            grid,
            Team::Green,
        ) + squares_of_team(grid, Team::Blue) == grid.len() * width,
    decreases grid.len(),
{
    if grid.len() > 0 {
        lemma_grid_counted(grid.drop_last(), width);
        lemma_row_counted(grid.last()@);
        assert(grid.last()@.len() == width);
        assert((grid.len() - 1) * width + width == grid.len() * width) by (nonlinear_arith);
    } else {
        assert(grid.len() * width == 0) by (nonlinear_arith)
            requires
                grid.len() == 0,
        ;
    }
}

/// The counts of the four teams add up to the number of squares of the
/// board.
pub proof fn law_every_square_is_counted(board: Board)
    requires
        board.wf(),
    ensures
        squares_of_team(board.grid(), Team::Null) + squares_of_team(board.grid(), Team::Red)
            + squares_of_team(board.grid(), Team::Green) + squares_of_team(
            board.grid(),
            Team::Blue,
        ) == board.spec_width() * board.spec_height(),
{
    lemma_grid_counted(board.grid(), board.spec_width());
    assert(board.grid().len() * board.spec_width() == board.spec_width() * board.spec_height())
        by (nonlinear_arith)
        requires
            board.grid().len() == board.spec_height(),
    ;
}

} // verus!
