//! The game as it is written down: team codes, the map as rows of codes,
//! and players with their coordinates as text.

use vstd::prelude::*;
use vstd::string::*;
use crate::game::{Player, Position, Square, Team};
use crate::roster::Roster;
use crate::text::{
    chars_of, is_blank, is_blank_line, lines, lines_of, parse_number, parsed_number, quote,
    quoted, ragged_row_message, ragged_row_text, split, split_chars, text_of, texts,
};

verus! {

/// Why a text is no part of a game.
#[derive(Debug)]
pub enum DataError {
    /// `code` stands for no team.
    UnknownTeam { code: String },
    /// `text` stands for no coordinate.
    BadNumber { text: String },
    /// The map has no row.
    MapEmpty,
    /// Row `row` of the map is `width` wide, the first row `first_width`.
    RaggedRow { row: usize, width: usize, first_width: usize },
}

/// What is said of a team code that was written as `code`, quotes
/// included, and stands for no team.
pub fn unknown_team_message(code: &str) -> (s: String)
    ensures
        s@ == "unknown team "@ + code@,
{
    let mut s = String::from_str("unknown team ");
    s.append(code);
    s
}

/// What is said of a text that was written as `text`, quotes included, and
/// stands for no coordinate.
pub fn bad_number_message(text: &str) -> (s: String)
    ensures
        s@ == text@ + " is no coordinate"@,
{
    let mut s = String::from_str(text);
    s.append(" is no coordinate");
    s
}

impl DataError {
    /// The error in words.
    pub open spec fn text(&self) -> Seq<char> {
        match self {
            DataError::UnknownTeam { code } => "unknown team "@ + quoted(code@),
            DataError::BadNumber { text } => quoted(text@) + " is no coordinate"@,
            DataError::MapEmpty => "map empty"@,
            DataError::RaggedRow { row, width, first_width } => ragged_row_text(
                *row as nat,
                *width as nat,
                *first_width as nat,
            ),
        }
    }

    /// The error in words.
    pub fn to_string(&self) -> (s: String)
        ensures
            s@ == self.text(),
    {
        match self {
            DataError::UnknownTeam { code } => unknown_team_message(quote(code.as_str()).as_str()),
            DataError::BadNumber { text } => bad_number_message(quote(text.as_str()).as_str()),
            DataError::MapEmpty => String::from_str("map empty"),
            DataError::RaggedRow { row, width, first_width } => ragged_row_message(
                *row,
                *width,
                *first_width,
            ),
        }
    }
}

/// Whether `code` is the two characters `a` and `b`.
pub open spec fn is_pair(code: Seq<char>, a: char, b: char) -> bool {
    code.len() == 2 && code[0] == a && code[1] == b
}

/// The team that `code` stands for: `cr` and `ur` are red, `cg` and `ug`
/// green, `cb` and `ub` blue, and `ux` is no team at all. Any other code
/// stands for nothing.
pub open spec fn team_of_code(code: Seq<char>) -> Option<Team> {
    if is_pair(code, 'c', 'r') || is_pair(code, 'u', 'r') {
        Some(Team::Red)
    } else if is_pair(code, 'c', 'g') || is_pair(code, 'u', 'g') {
        Some(Team::Green)
    } else if is_pair(code, 'c', 'b') || is_pair(code, 'u', 'b') {
        Some(Team::Blue)
    } else if is_pair(code, 'u', 'x') {
        Some(Team::Null)
    } else {
        None
    }
}

/// The team that `code` stands for.
pub fn team_of_chars(code: &Vec<char>) -> (team: Option<Team>)
    ensures
        team == team_of_code(code@),
{
    if code.len() != 2 {
        return None;
    }
    let a = code[0];
    let b = code[1];
    if (a == 'c' || a == 'u') && b == 'r' {
        Some(Team::Red)
    } else if (a == 'c' || a == 'u') && b == 'g' {
        Some(Team::Green)
    } else if (a == 'c' || a == 'u') && b == 'b' {
        Some(Team::Blue)
    } else if a == 'u' && b == 'x' {
        Some(Team::Null)
    } else {
        None
    }
}

impl Team {
    /// The team that the code `s` stands for.
    pub fn from_str(s: &str) -> (r: Result<Team, DataError>)
        ensures
            match r {
                Ok(team) => team_of_code(s@) == Some(team),
                Err(DataError::UnknownTeam { code }) => team_of_code(s@) is None && code@ == s@,
                Err(_) => false,
            },
    {
        let code = chars_of(s);
        match team_of_chars(&code) {
            Some(team) => Ok(team),
            None => Err(DataError::UnknownTeam { code: s.to_owned() }),
        }
    }
}

/// The rows of codes that the lines `ls` hold: the fields of each line that
/// is not blank, fields being what stands between commas.
pub open spec fn code_rows(ls: Seq<Seq<char>>) -> Seq<Seq<Seq<char>>>
    decreases ls.len(),
{
    if ls.len() == 0 {
        Seq::empty()
    } else {
        let before = code_rows(ls.drop_last());
        if is_blank(ls.last()) {
            before
        } else {
            before.push(split(ls.last(), ','))
        }
    }
}

/// Whether every code of `row` stands for a team.
pub open spec fn row_known(row: Seq<Seq<char>>) -> bool {
    forall|c: int| 0 <= c < row.len() ==> team_of_code(#[trigger] row[c]) is Some
}

/// Whether the code at column `c` of row `r` is the first, in reading
/// order, that stands for no team.
pub open spec fn first_unknown(rows: Seq<Seq<Seq<char>>>, r: int, c: int) -> bool {
    &&& 0 <= r < rows.len()
    &&& 0 <= c < rows[r].len()
    &&& team_of_code(rows[r][c]) is None
    &&& forall|y: int| 0 <= y < r ==> row_known(#[trigger] rows[y])
    &&& forall|x: int| 0 <= x < c ==> team_of_code(#[trigger] rows[r][x]) is Some
}

/// The teams that the codes of `row` stand for.
pub open spec fn teams_of(row: Seq<Seq<char>>) -> Seq<Team> {
    Seq::new(row.len(), |c: int| team_of_code(row[c]).unwrap())
}

/// The rows that `ls` held before its line `n` are the first rows that it
/// holds in all.
pub proof fn lemma_code_rows_grow(ls: Seq<Seq<char>>, n: int)
    requires
        0 <= n <= ls.len(),
    ensures
        code_rows(ls.take(n)).len() <= code_rows(ls).len(),
        forall|r: int|
            0 <= r < code_rows(ls.take(n)).len() ==> (#[trigger] code_rows(ls)[r]) == code_rows(
                ls.take(n),
            )[r],
    decreases ls.len(),
{
    if n == ls.len() {
        assert(ls.take(n) =~= ls);
    } else {
        lemma_code_rows_grow(ls.drop_last(), n);
        assert(ls.drop_last().take(n) =~= ls.take(n));
    }
}

/// The teams of a map, row by row.
#[derive(Debug)]
pub struct MapData {
    pub squares: Vec<Vec<Team>>,
}

impl MapData {
    /// The teams of the map, row by row.
    pub open spec fn rows(&self) -> Seq<Seq<Team>> {
        Seq::new(self.squares@.len(), |y: int| self.squares@[y]@)
    }

    /// Reads a map. Each line that is not blank is a row, and its fields
    /// between commas are team codes. The first code, in reading order,
    /// that stands for no team is an error; then a map without rows is one,
    /// and then the first row that is not as wide as the first.
    pub fn from_str(s: &str) -> (r: Result<MapData, DataError>)
        ensures
            match r {
                Ok(map) => {
                    let rows = code_rows(lines(s@));
                    &&& rows.len() > 0
                    &&& forall|y: int| 0 <= y < rows.len() ==> row_known(#[trigger] rows[y])
                    &&& forall|y: int|
                        0 <= y < rows.len() ==> (#[trigger] rows[y]).len() == rows[0].len()
                    &&& map.rows() == Seq::new(rows.len(), |y: int| teams_of(rows[y]))
                },
                Err(DataError::UnknownTeam { code }) => exists|y: int, x: int|
                    #![trigger code_rows(lines(s@))[y][x]]
                    first_unknown(code_rows(lines(s@)), y, x) && code@ == code_rows(
                        lines(s@),
                    )[y][x],
                Err(DataError::MapEmpty) => code_rows(lines(s@)).len() == 0,
                Err(DataError::RaggedRow { row, width, first_width }) => {
                    let rows = code_rows(lines(s@));
                    &&& forall|y: int| 0 <= y < rows.len() ==> row_known(#[trigger] rows[y])
                    &&& 0 < row < rows.len()
                    &&& first_width == rows[0].len()
                    &&& width == rows[row as int].len()
                    &&& width != first_width
                    &&& forall|y: int| 0 <= y < row ==> (#[trigger] rows[y]).len() == first_width
                },
                Err(DataError::BadNumber { .. }) => false,
            },
    {
        let chars = chars_of(s);
        let found = lines_of(&chars);
        let ghost ls = lines(s@);
        let ghost rows = code_rows(ls);
        let mut squares: Vec<Vec<Team>> = Vec::new();
        let mut i: usize = 0;
        assert(ls.take(0) =~= Seq::<Seq<char>>::empty());
        while i < found.len()
            invariant
                i <= found@.len(),
                texts(found@) == ls,
                ls == lines(s@),
                rows == code_rows(ls),
                squares@.len() == code_rows(ls.take(i as int)).len(),
                forall|y: int|
                    0 <= y < squares@.len() ==> {
                        &&& row_known(#[trigger] code_rows(ls.take(i as int))[y])
                        &&& squares@[y]@ == teams_of(code_rows(ls.take(i as int))[y])
                    },
            decreases found@.len() - i,
        {
            let line = &found[i];
            let ghost before = code_rows(ls.take(i as int));
            proof {
                assert(line@ == ls[i as int]);
                assert(ls.take(i + 1).drop_last() =~= ls.take(i as int));
                assert(ls.take(i + 1).last() == ls[i as int]);
            }
            if !is_blank_line(line) {
                let fields = split_chars(line, ',');
                let ghost row = split(ls[i as int], ',');
                assert(code_rows(ls.take(i + 1)) == before.push(row));
                let mut teams: Vec<Team> = Vec::new();
                let mut c: usize = 0;
                while c < fields.len()
                    invariant
                        c <= fields@.len(),
                        i < found@.len(),
                        texts(fields@) == row,
                        texts(found@) == ls,
                        ls == lines(s@),
                        rows == code_rows(ls),
                        before == code_rows(ls.take(i as int)),
                        code_rows(ls.take(i + 1)) == before.push(row),
                        squares@.len() == before.len(),
                        forall|y: int| 0 <= y < before.len() ==> row_known(#[trigger] before[y]),
                        teams@.len() == c,
                        forall|x: int|
                            0 <= x < c ==> team_of_code(#[trigger] row[x]) == Some(teams@[x]),
                    decreases fields@.len() - c,
                {
                    let field = &fields[c];
                    assert(field@ == row[c as int]);
                    match team_of_chars(field) {
                        Some(team) => {
                            teams.push(team);
                        },
                        None => {
                            proof {
                                lemma_code_rows_grow(ls, i + 1);
                                let y = before.len() as int;
                                assert(rows[y] == code_rows(ls.take(i + 1))[y]);
                                assert(rows[y] == row);
                                assert forall|y2: int| 0 <= y2 < y implies row_known(
                                    #[trigger] rows[y2],
                                ) by {
                                    assert(rows[y2] == code_rows(ls.take(i + 1))[y2]);
                                    assert(rows[y2] == before[y2]);
                                }
                                assert(first_unknown(rows, y, c as int));
                                assert(field@ == code_rows(lines(s@))[y][c as int]);
                            }
                            return Err(DataError::UnknownTeam { code: text_of(field) });
                        },
                    }
                    c += 1;
                }
                proof {
                    assert(row_known(row));
                    assert(teams@ =~= teams_of(row));
                }
                squares.push(teams);
                proof {
                    let after = code_rows(ls.take(i + 1));
                    assert forall|y: int| 0 <= y < squares@.len() implies {
                        &&& row_known(#[trigger] after[y])
                        &&& squares@[y]@ == teams_of(after[y])
                    } by {
                        if y < before.len() {
                            assert(after[y] == before[y]);
                        }
                    }
                }
            } else {
                assert(code_rows(ls.take(i + 1)) == before);
            }
            i += 1;
        }
        proof {
            assert(ls.take(found@.len() as int) =~= ls);
        }
        if squares.len() == 0 {
            return Err(DataError::MapEmpty);
        }
        let width = squares[0].len();
        let mut y: usize = 1;
        while y < squares.len()
            invariant
                1 <= y <= squares@.len(),
                rows == code_rows(lines(s@)),
                squares@.len() == rows.len(),
                width == rows[0].len(),
                forall|k: int|
                    0 <= k < squares@.len() ==> {
                        &&& row_known(#[trigger] rows[k])
                        &&& squares@[k]@ == teams_of(rows[k])
                    },
                forall|k: int| 0 <= k < y ==> (#[trigger] rows[k]).len() == width,
            decreases squares@.len() - y,
        {
            assert(row_known(rows[y as int]));
            if squares[y].len() != width {
                return Err(
                    DataError::RaggedRow { row: y, width: squares[y].len(), first_width: width },
                );
            }
            y += 1;
        }
        let map = MapData { squares };
        proof {
            assert forall|k: int| 0 <= k < rows.len() implies (#[trigger] map.rows()[k])
                == teams_of(rows[k]) by {
                assert(row_known(rows[k]));
            }
            assert(map.rows() =~= Seq::new(rows.len(), |k: int| teams_of(rows[k])));
        }
        Ok(map)
    }
}

/// A player as the game records them: name, side and place.
#[derive(Debug)]
pub struct PlayerData {
    pub name: String,
    pub team: Team,
    pub position: Position,
}

impl PlayerData {
    /// Reads a player called `name` from the texts of their team code and
    /// of their two coordinates. The first of the three texts that cannot
    /// be read is the error.
    pub fn from_text(name: String, team: &str, x: &str, y: &str) -> (r: Result<
        PlayerData,
        DataError,
    >)
        ensures
            match r {
                Ok(player) => {
                    &&& player.name == name
                    &&& team_of_code(team@) == Some(player.team)
                    &&& parsed_number(x@) == Some(player.position.x as int)
                    &&& parsed_number(y@) == Some(player.position.y as int)
                },
                Err(DataError::UnknownTeam { code }) => team_of_code(team@) is None && code@
                    == team@,
                Err(DataError::BadNumber { text }) => {
                    &&& team_of_code(team@) is Some
                    &&& if parsed_number(x@) is None {
                        text@ == x@
                    } else {
                        parsed_number(y@) is None && text@ == y@
                    }
                },
                Err(_) => false,
            },
    {
        let side = match Team::from_str(team) {
            Ok(side) => side,
            Err(e) => {
                return Err(e);
            },
        };
        let across = match parse_number(&chars_of(x)) {
            Some(n) => n,
            None => {
                return Err(DataError::BadNumber { text: x.to_owned() });
            },
        };
        let down = match parse_number(&chars_of(y)) {
            Some(n) => n,
            None => {
                return Err(DataError::BadNumber { text: y.to_owned() });
            },
        };
        Ok(PlayerData { name, team: side, position: Position::new(across, down) })
    }
}

/// The names of the players `data`, each once, in the order in which they
/// first occur.
pub open spec fn names_of(data: Seq<PlayerData>) -> Seq<Seq<char>>
    decreases data.len(),
{
    if data.len() == 0 {
        Seq::empty()
    } else {
        let before = names_of(data.drop_last());
        if before.contains(data.last().name@) {
            before
        } else {
            before.push(data.last().name@)
        }
    }
}

/// Where each of the players `data` stands. Of two players with one name
/// the later counts.
pub open spec fn places_of(data: Seq<PlayerData>) -> Map<Seq<char>, Position>
    decreases data.len(),
{
    if data.len() == 0 {
        Map::empty()
    } else {
        places_of(data.drop_last()).insert(data.last().name@, data.last().position)
    }
}

/// The side of each of the players `data`. Of two players with one name the
/// later counts.
pub open spec fn sides_of(data: Seq<PlayerData>) -> Map<Seq<char>, Team>
    decreases data.len(),
{
    if data.len() == 0 {
        Map::empty()
    } else {
        sides_of(data.drop_last()).insert(data.last().name@, data.last().team)
    }
}

/// Files the players `data` under their names: once with their sides, for
/// the game, and once with their places, for the board.
pub fn enroll(data: &Vec<PlayerData>) -> (filed: (Roster<Player>, Roster<Position>))
    ensures
        filed.0.names() == names_of(data@),
        filed.1.names() == names_of(data@),
        filed.1@ == places_of(data@),
        filed.0@.dom() == sides_of(data@).dom(),
        forall|name: Seq<char>|
            filed.0@.dom().contains(name) ==> {
                &&& (#[trigger] filed.0@[name]).team == sides_of(data@)[name]
                &&& filed.0@[name].name@ == name
            },
{
    let mut players: Roster<Player> = Roster::new();
    let mut places: Roster<Position> = Roster::new();
    let mut i: usize = 0;
    assert(data@.take(0) =~= Seq::<PlayerData>::empty());
    assert(players@.dom() =~= sides_of(data@.take(0)).dom());
    while i < data.len()
        invariant
            i <= data@.len(),
            players.names() == names_of(data@.take(i as int)),
            places.names() == names_of(data@.take(i as int)),
            places@ == places_of(data@.take(i as int)),
            players@.dom() == sides_of(data@.take(i as int)).dom(),
            forall|name: Seq<char>|
                players@.dom().contains(name) ==> {
                    &&& (#[trigger] players@[name]).team == sides_of(data@.take(i as int))[name]
                    &&& players@[name].name@ == name
                },
        decreases data@.len() - i,
    {
        let entry = &data[i];
        proof {
            assert(data@.take(i + 1).drop_last() =~= data@.take(i as int));
            assert(data@.take(i + 1).last() == data@[i as int]);
        }
        let ghost sides = sides_of(data@.take(i as int));
        let ghost held = players@;
        let player = Player { team: entry.team, name: entry.name.clone() };
        players.insert(entry.name.clone(), player);
        places.insert(entry.name.clone(), entry.position);
        proof {
            let after = sides_of(data@.take(i + 1));
            assert(after == sides.insert(entry.name@, entry.team));
            assert(players@.dom() =~= after.dom());
            assert forall|name: Seq<char>| players@.dom().contains(name) implies {
                &&& (#[trigger] players@[name]).team == after[name]
                &&& players@[name].name@ == name
            } by {
                if name != entry.name@ {
                    assert(held.dom().contains(name));
                    assert(players@[name] == held[name]);
                }
            }
        }
        i += 1;
    }
    assert(data@.take(data@.len() as int) =~= data@);
    (players, places)
}

/// The grid of a map: for each team of the map an empty square that the
/// team controls.
pub fn squares_of(map: &MapData) -> (squares: Vec<Vec<Square>>)
    ensures
        squares@.len() == map.rows().len(),
        forall|y: int|
            0 <= y < squares@.len() ==> (#[trigger] squares@[y])@.len() == map.rows()[y].len(),
        forall|y: int, x: int|
            0 <= y < squares@.len() && 0 <= x < squares@[y]@.len() ==> {
                &&& (#[trigger] squares@[y]@[x]).controlled_by == map.rows()[y][x]
                &&& squares@[y]@[x].occupied_by_player is None
            },
{
    let mut squares: Vec<Vec<Square>> = Vec::new();
    let mut y: usize = 0;
    while y < map.squares.len()
        invariant
            y <= map.squares@.len(),
            squares@.len() == y,
            forall|k: int|
                0 <= k < y ==> (#[trigger] squares@[k])@.len() == map.squares@[k]@.len(),
            forall|k: int, x: int|
                0 <= k < y && 0 <= x < squares@[k]@.len() ==> {
                    &&& (#[trigger] squares@[k]@[x]).controlled_by == map.squares@[k]@[x]
                    &&& squares@[k]@[x].occupied_by_player is None
                },
        decreases map.squares@.len() - y,
    {
        let teams = &map.squares[y];
        let mut row: Vec<Square> = Vec::new();
        let mut x: usize = 0;
        while x < teams.len()
            invariant
                x <= teams@.len(),
                row@.len() == x,
                forall|k: int|
                    0 <= k < x ==> {
                        &&& (#[trigger] row@[k]).controlled_by == teams@[k]
                        &&& row@[k].occupied_by_player is None
                    },
            decreases teams@.len() - x,
        {
            row.push(Square::new(teams[x]));
            x += 1;
        }
        squares.push(row);
        y += 1;
    }
    squares
}

} // verus!
