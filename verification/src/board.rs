//! The board: a rectangular grid of squares and the players standing on it.
//!
//! A board is made of a grid on which the players are marked already, and
//! making it only checks that the grid and the players agree.
//! [`mark_players`] puts the marks on a grid that has none.

use vstd::prelude::*;
use vstd::string::*;
use crate::game::{Position, Square};
use crate::roster::Roster;
use crate::text::{ragged_row_message, ragged_row_text};

verus! {

/// Whether `p` names a cell of `grid`.
pub open spec fn on_grid(grid: Seq<Vec<Square>>, p: Position) -> bool {
    &&& 0 <= p.y < grid.len()
    &&& 0 <= p.x < grid[p.y as int]@.len()
}

/// The cell of `grid` that `p` names.
pub open spec fn cell_of(grid: Seq<Vec<Square>>, p: Position) -> Square
    recommends
        on_grid(grid, p),
{
    grid[p.y as int]@[p.x as int]
}

/// Whether every row of `grid` is as wide as the first.
pub open spec fn rectangular(grid: Seq<Vec<Square>>) -> bool {
    forall|y: int| 0 <= y < grid.len() ==> (#[trigger] grid[y])@.len() == grid[0]@.len()
}

/// Whether the `i`-th player is seated: the place is a cell of the grid,
/// and the cell is marked as occupied by that player.
pub open spec fn seats(
    grid: Seq<Vec<Square>>,
    names: Seq<Seq<char>>,
    places: Seq<Position>,
    i: int,
) -> bool {
    &&& on_grid(grid, places[i])
    &&& cell_of(grid, places[i]).occupant() == Some(names[i])
}

/// Whether the `k`-th is the first of the players to stand at column `x` of
/// row `y`.
pub open spec fn first_at(places: Seq<Position>, x: int, y: int, k: int) -> bool {
    &&& 0 <= k < places.len()
    &&& places[k].x == x
    &&& places[k].y == y
    &&& forall|j: int| 0 <= j < k ==> (#[trigger] places[j]).x != x || places[j].y != y
}

/// Whether `after` is the square `before` at column `x` of row `y` once the
/// players are marked: who controls it is as before, and so is a mark that
/// it had. A square without a mark gets the name of the first player who
/// stands there, and stays without one where nobody does.
pub open spec fn marked(
    before: Square,
    after: Square,
    names: Seq<Seq<char>>,
    places: Seq<Position>,
    x: int,
    y: int,
) -> bool {
    &&& after.controlled_by == before.controlled_by
    &&& before.occupant() is Some ==> after.occupant() == before.occupant()
    &&& before.occupant() is None && (forall|k: int|
        0 <= k < places.len() ==> (#[trigger] places[k]).x != x || places[k].y != y)
        ==> after.occupant() is None
    &&& forall|k: int|
        before.occupant() is None && #[trigger] first_at(places, x, y, k) ==> after.occupant()
            == Some(names[k])
}

/// Two players with different names are not both seated on one cell.
pub proof fn law_one_cell_one_player(
    grid: Seq<Vec<Square>>,
    names: Seq<Seq<char>>,
    places: Seq<Position>,
    i: int,
    j: int,
)
    requires
        names[i] != names[j],
        places[i] == places[j],
    ensures
        !(seats(grid, names, places, i) && seats(grid, names, places, j)),
{
}

/// Why a grid and its players do not make a board.
#[derive(Debug)]
pub enum BoardError {
    /// The grid has no row.
    NoSquares,
    /// Row `row` is `width` wide, the first row `first_width`.
    RaggedRow { row: usize, width: usize, first_width: usize },
    /// The player `name` stands at `position`, which is no cell of the grid.
    OffBoard { name: String, position: Position },
    /// The player `name` stands at `position`, but the cell there is not
    /// marked as occupied.
    Unmarked { name: String, position: Position },
    /// The player `name` stands at `position`, but the cell there is marked
    /// as occupied by `holder`.
    Occupied { position: Position, holder: String, name: String },
}

impl BoardError {
    /// The error in words.
    pub open spec fn text(&self) -> Seq<char> {
        match self {
            BoardError::NoSquares => "no squares"@,
            BoardError::RaggedRow { row, width, first_width } => ragged_row_text(
                *row as nat,
                *width as nat,
                *first_width as nat,
            ),
            BoardError::OffBoard { name, position } => name@ + " is off the board at "@
                + position.text(),
            BoardError::Unmarked { name, position } => position.text()
                + " is not marked as occupied by "@ + name@,
            BoardError::Occupied { position, holder, name } => position.text()
                + " is occupied by both "@ + holder@ + " and "@ + name@,
        }
    }

    /// The error in words.
    pub fn to_string(&self) -> (s: String)
        ensures
            s@ == self.text(),
    {
        match self {
            BoardError::NoSquares => String::from_str("no squares"),
            BoardError::RaggedRow { row, width, first_width } => ragged_row_message(
                *row,
                *width,
                *first_width,
            ),
            BoardError::OffBoard { name, position } => {
                let mut s = name.clone();
                s.append(" is off the board at ");
                s.append(position.to_string().as_str());
                assert(s@ =~= self.text());
                s
            },
            BoardError::Unmarked { name, position } => {
                let mut s = position.to_string();
                s.append(" is not marked as occupied by ");
                s.append(name.as_str());
                assert(s@ =~= self.text());
                s
            },
            BoardError::Occupied { position, holder, name } => {
                let mut s = position.to_string();
                s.append(" is occupied by both ");
                s.append(holder.as_str());
                s.append(" and ");
                s.append(name.as_str());
                assert(s@ =~= self.text());
                s
            },
        }
    }
}

/// A rectangular grid of squares with the players on it. Every player
/// stands on a cell of the grid, and that cell is marked with the player's
/// name, so no two players share a cell.
#[derive(Debug)]
pub struct Board {
    players: Roster<Position>,
    squares: Vec<Vec<Square>>,
    width: usize,
    height: usize,
}

impl Board {
    /// The rows of the grid, top row first.
    pub closed spec fn grid(&self) -> Seq<Vec<Square>> {
        self.squares@
    }

    /// The players and where they stand.
    pub closed spec fn roster(&self) -> Roster<Position> {
        self.players
    }

    /// The number of columns.
    pub closed spec fn spec_width(&self) -> int {
        self.width as int
    }

    /// The number of rows.
    pub closed spec fn spec_height(&self) -> int {
        self.height as int
    }

    /// Whether the coordinates name a cell of the board.
    pub open spec fn holds(&self, x: int, y: int) -> bool {
        0 <= x < self.spec_width() && 0 <= y < self.spec_height()
    }

    /// Whether `pos` names a cell of the board.
    pub open spec fn inside(&self, pos: Position) -> bool {
        self.holds(pos.x as int, pos.y as int)
    }

    /// The cell at column `x` of row `y`.
    pub open spec fn cell(&self, x: int, y: int) -> Square
        recommends
            self.holds(x, y),
    {
        self.grid()[y]@[x]
    }

    /// The grid is a rectangle of at least one row, and each player stands
    /// inside it on a cell that bears the player's name.
    #[verifier::type_invariant]
    pub open spec fn wf(&self) -> bool {
        &&& self.roster().wf()
        &&& self.spec_height() == self.grid().len()
        &&& self.spec_height() > 0
        &&& forall|y: int|
            0 <= y < self.grid().len() ==> (#[trigger] self.grid()[y])@.len() == self.spec_width()
        &&& forall|i: int|
            0 <= i < self.roster().names().len() ==> {
                &&& self.inside(#[trigger] self.roster().values()[i])
                &&& self.cell(
                    self.roster().values()[i].x as int,
                    self.roster().values()[i].y as int,
                ).occupant() == Some(self.roster().names()[i])
            }
    }

    /// No two players of a board stand on one cell.
    pub proof fn law_players_apart(&self, i: int, j: int)
        requires
            self.wf(),
            0 <= i < self.roster().names().len(),
            0 <= j < self.roster().names().len(),
            i != j,
        ensures
            self.roster().values()[i] != self.roster().values()[j],
    {
        let at_i = self.roster().values()[i];
        let at_j = self.roster().values()[j];
        assert(self.inside(at_i) && self.inside(at_j));
        if at_i == at_j {
            assert(self.roster().names()[i] == self.roster().names()[j]);
        }
    }

    /// Makes a board of a grid and the players on it, both of which it
    /// keeps as they are given. A grid without rows or with rows of
    /// different widths is refused, and so is a player who stands outside
    /// the grid or on a cell that is not marked as occupied by that player:
    /// the error names the first such row or player.
    pub fn new(players: Roster<Position>, squares: Vec<Vec<Square>>) -> (r: Result<
        Board,
        BoardError,
    >)
        ensures
            match r {
                Ok(board) => {
                    &&& squares@.len() > 0
                    &&& rectangular(squares@)
                    &&& forall|i: int|
                        0 <= i < players.names().len() ==> seats(
                            squares@,
                            players.names(),
                            players.values(),
                            i,
                        )
                    &&& board.wf()
                    &&& board.roster() == players
                    &&& board.grid() == squares@
                    &&& board.spec_height() == squares@.len()
                    &&& board.spec_width() == squares@[0]@.len()
                },
                Err(BoardError::NoSquares) => squares@.len() == 0,
                Err(BoardError::RaggedRow { row, width, first_width }) => {
                    &&& 0 < row < squares@.len()
                    &&& first_width == squares@[0]@.len()
                    &&& width == squares@[row as int]@.len()
                    &&& width != first_width
                    &&& forall|y: int|
                        0 <= y < row ==> (#[trigger] squares@[y])@.len() == first_width
                },
                Err(BoardError::OffBoard { name, position }) => {
                    &&& squares@.len() > 0
                    &&& rectangular(squares@)
                    &&& exists|i: int|
                        {
                            &&& 0 <= i < players.names().len()
                            &&& forall|j: int|
                                0 <= j < i ==> seats(
                                    squares@,
                                    players.names(),
                                    players.values(),
                                    j,
                                )
                            &&& name@ == #[trigger] players.names()[i]
                            &&& position == players.values()[i]
                            &&& !on_grid(squares@, position)
                        }
                },
                Err(BoardError::Unmarked { name, position }) => {
                    &&& squares@.len() > 0
                    &&& rectangular(squares@)
                    &&& exists|i: int|
                        {
                            &&& 0 <= i < players.names().len()
                            &&& forall|j: int|
                                0 <= j < i ==> seats(
                                    squares@,
                                    players.names(),
                                    players.values(),
                                    j,
                                )
                            &&& name@ == #[trigger] players.names()[i]
                            &&& position == players.values()[i]
                            &&& on_grid(squares@, position)
                            &&& cell_of(squares@, position).occupant() is None
                        }
                },
                Err(BoardError::Occupied { position, holder, name }) => {
                    &&& squares@.len() > 0
                    &&& rectangular(squares@)
                    &&& holder@ != name@
                    &&& exists|i: int|
                        {
                            &&& 0 <= i < players.names().len()
                            &&& forall|j: int|
                                0 <= j < i ==> seats(
                                    squares@,
                                    players.names(),
                                    players.values(),
                                    j,
                                )
                            &&& name@ == #[trigger] players.names()[i]
                            &&& position == players.values()[i]
                            &&& on_grid(squares@, position)
                            &&& cell_of(squares@, position).occupant() == Some(holder@)
                        }
                },
            },
    {
        let height = squares.len();
        if height == 0 {
            return Err(BoardError::NoSquares);
        }
        let width = squares[0].len();
        let mut y: usize = 1;
        while y < height
            invariant
                1 <= y <= height,
                height == squares@.len(),
                width == squares@[0]@.len(),
                forall|k: int| 0 <= k < y ==> (#[trigger] squares@[k])@.len() == width,
            decreases height - y,
        {
            if squares[y].len() != width {
                return Err(
                    BoardError::RaggedRow { row: y, width: squares[y].len(), first_width: width },
                );
            }
            y += 1;
        }
        let count = players.len();
        let mut i: usize = 0;
        while i < count
            invariant
                i <= count,
                count == players.names().len(),
                height > 0,
                height == squares@.len(),
                width == squares@[0]@.len(),
                rectangular(squares@),
                forall|j: int|
                    0 <= j < i ==> seats(squares@, players.names(), players.values(), j),
            decreases count - i,
        {
            let name = players.name_at(i);
            let pos = *players.value_at(i);
            if pos.x < 0 || pos.y < 0 || pos.y as usize >= height || pos.x as usize >= width {
                assert(name@ == players.names()[i as int] && !on_grid(squares@, pos));
                return Err(BoardError::OffBoard { name: name.clone(), position: pos });
            }
            assert(on_grid(squares@, pos));
            match &squares[pos.y as usize][pos.x as usize].occupied_by_player {
                Some(holder) => {
                    if *holder != *name {
                        assert(name@ == players.names()[i as int] && holder@ != name@);
                        return Err(
                            BoardError::Occupied {
                                position: pos,
                                holder: holder.clone(),
                                name: name.clone(),
                            },
                        );
                    }
                },
                None => {
                    assert(name@ == players.names()[i as int]);
                    return Err(BoardError::Unmarked { name: name.clone(), position: pos });
                },
            }
            assert(seats(squares@, players.names(), players.values(), i as int));
            i += 1;
        }
        proof {
            use_type_invariant(&players);
            assert forall|k: int| 0 <= k < players.names().len() implies {
                &&& on_grid(squares@, #[trigger] players.values()[k])
                &&& squares@[players.values()[k].y as int]@[players.values()[k].x as int].occupant()
                    == Some(players.names()[k])
            } by {
                assert(seats(squares@, players.names(), players.values(), k));
            }
        }
        Ok(Board { players, squares, width, height })
    }

    /// The number of columns.
    pub fn width(&self) -> (w: usize)
        ensures
            w == self.spec_width(),
    {
        self.width
    }

    /// The number of rows.
    pub fn height(&self) -> (h: usize)
        ensures
            h == self.spec_height(),
    {
        self.height
    }

    /// The players on the board and where they stand.
    pub fn players(&self) -> (players: &Roster<Position>)
        ensures
            *players == self.roster(),
    {
        &self.players
    }

    /// The square at column `x` of row `y`.
    pub fn square_at(&self, x: usize, y: usize) -> (square: &Square)
        requires
            self.holds(x as int, y as int),
        ensures
            *square == self.cell(x as int, y as int),
    {
        proof {
            use_type_invariant(self);
        }
        &self.squares[y][x]
    }

    /// Whether `pos` names a cell of the board.
    pub fn is_inside(&self, pos: Position) -> (b: bool)
        ensures
            b == self.inside(pos),
    {
        pos.x >= 0 && (pos.x as usize) < self.width && pos.y >= 0 && (pos.y as usize)
            < self.height
    }

    /// The square at `pos`, or nothing where `pos` is outside the board.
    pub fn square(&self, pos: Position) -> (r: Option<&Square>)
        ensures
            match r {
                Some(square) => self.inside(pos) && *square == self.cell(
                    pos.x as int,
                    pos.y as int,
                ),
                None => !self.inside(pos),
            },
    {
        if self.is_inside(pos) {
            proof {
                use_type_invariant(self);
            }
            Some(&self.squares[pos.y as usize][pos.x as usize])
        } else {
            None
        }
    }
}

/// Marks the players on a grid. Each square without a mark on which a
/// player stands is marked as occupied by the first such player; every
/// other square stays as it is, and a player who stands on no square of the
/// grid marks none.
pub fn mark_players(squares: Vec<Vec<Square>>, players: &Roster<Position>) -> (seated: Vec<
    Vec<Square>,
>)
    ensures
        seated@.len() == squares@.len(),
        forall|y: int|
            0 <= y < squares@.len() ==> (#[trigger] seated@[y])@.len() == squares@[y]@.len(),
        forall|x: int, y: int|
            0 <= y < squares@.len() && 0 <= x < squares@[y]@.len() ==> marked(
                squares@[y]@[x],
                #[trigger] seated@[y]@[x],
                players.names(),
                players.values(),
                x,
                y,
            ),
{
    let ghost given = squares@;
    let ghost names = players.names();
    let ghost places = players.values();
    let mut grid = squares;
    let count = players.len();
    let mut i: usize = 0;
    while i < count
        invariant
            i <= count,
            count == names.len(),
            count == places.len(),
            names == players.names(),
            places == players.values(),
            grid@.len() == given.len(),
            forall|y: int| 0 <= y < given.len() ==> (#[trigger] grid@[y])@.len() == given[y]@.len(),
            forall|x: int, y: int|
                0 <= y < given.len() && 0 <= x < given[y]@.len() ==> marked(
                    given[y]@[x],
                    #[trigger] grid@[y]@[x],
                    names,
                    places.take(i as int),
                    x,
                    y,
                ),
        decreases count - i,
    {
        let name = players.name_at(i);
        let pos = *players.value_at(i);
        let ghost so_far = grid@;
        let ghost earlier = places.take(i as int);
        let ghost now = places.take(i + 1);
        proof {
            assert(now.len() == i + 1);
            assert(now[i as int] == pos);
            assert forall|k: int| 0 <= k < i implies now[k] == earlier[k] by {}
        }
        let mut fresh = false;
        if pos.x >= 0 && pos.y >= 0 && (pos.y as usize) < grid.len() && (pos.x as usize)
            < grid[pos.y as usize].len() {
            if grid[pos.y as usize][pos.x as usize].occupied_by_player.is_none() {
                grid[pos.y as usize][pos.x as usize].occupied_by_player = Some(name.clone());
                fresh = true;
            }
        }
        proof {
            assert forall|x: int, y: int|
                0 <= y < given.len() && 0 <= x < given[y]@.len() implies marked(
                given[y]@[x],
                #[trigger] grid@[y]@[x],
                names,
                now,
                x,
                y,
            ) by {
                let before = given[y]@[x];
                let was = so_far[y]@[x];
                let after = grid@[y]@[x];
                assert(marked(before, was, names, earlier, x, y));
                let here = pos.x == x && pos.y == y;
                if here && fresh {
                    assert(was.occupant() is None);
                    assert(after.occupant() == Some(names[i as int]));
                    if before.occupant() is None {
                        assert forall|k: int| 0 <= k < i implies (#[trigger] earlier[k]).x != x
                            || earlier[k].y != y by {
                            if earlier[k].x == x && earlier[k].y == y {
                                lemma_some_first(earlier, x, y, k);
                                let f = choose|f: int| first_at(earlier, x, y, f);
                                assert(first_at(earlier, x, y, f));
                            }
                        }
                        assert forall|k: int| #[trigger] first_at(now, x, y, k) implies k == i by {
                            if k < i {
                                assert(earlier[k].x == x && earlier[k].y == y);
                            }
                        }
                    }
                } else {
                    assert(after == was);
                    if before.occupant() is None {
                        if here {
                            assert(was.occupant() is Some);
                            if forall|k: int|
                                0 <= k < i ==> (#[trigger] earlier[k]).x != x || earlier[k].y != y {
                                assert(false);
                            }
                            let k0 = choose|k: int|
                                0 <= k < i && !((#[trigger] earlier[k]).x != x || earlier[k].y
                                    != y);
                            lemma_some_first(earlier, x, y, k0);
                        }
                        assert forall|k: int| #[trigger] first_at(now, x, y, k) implies
                            after.occupant() == Some(names[k]) by {
                            if k < i {
                                assert forall|j: int| 0 <= j < k implies (#[trigger] earlier[j]).x
                                    != x || earlier[j].y != y by {
                                    assert(now[j] == earlier[j]);
                                }
                                assert(earlier[k] == now[k]);
                                assert(first_at(earlier, x, y, k));
                            } else {
                                assert(k == i);
                                assert(here);
                                let f = choose|f: int| first_at(earlier, x, y, f);
                                assert(first_at(earlier, x, y, f));
                                assert(now[f] == earlier[f]);
                                assert(false);
                            }
                        }
                        if forall|k: int|
                            0 <= k < now.len() ==> (#[trigger] now[k]).x != x || now[k].y != y {
                            assert forall|k: int| 0 <= k < i implies (#[trigger] earlier[k]).x != x
                                || earlier[k].y != y by {
                                assert(now[k] == earlier[k]);
                            }
                        }
                    }
                }
            }
        }
        i += 1;
    }
    assert(places.take(count as int) =~= places);
    grid
}

/// Where a player among `places` stands at column `x` of row `y`, one of
/// them is the first to do so.
proof fn lemma_some_first(places: Seq<Position>, x: int, y: int, k: int)
    requires
        0 <= k < places.len(),
        places[k].x == x,
        places[k].y == y,
    ensures
        exists|f: int| first_at(places, x, y, f),
    decreases k,
{
    if exists|j: int| 0 <= j < k && (#[trigger] places[j]).x == x && places[j].y == y {
        let j = choose|j: int| 0 <= j < k && (#[trigger] places[j]).x == x && places[j].y == y;
        lemma_some_first(places, x, y, j);
    } else {
        assert(first_at(places, x, y, k));
    }
}

} // verus!
