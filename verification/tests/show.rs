use gitland_ai::board::Board;
use gitland_ai::game::{Game, Player, Square, Team};
use gitland_ai::roster::Roster;
use gitland_ai::show::{count_players, count_squares, show, Tally};

fn players(teams: &[(&str, Team)]) -> Roster<Player> {
    let mut roster = Roster::new();
    for (name, team) in teams {
        roster.insert(name.to_string(), Player { team: *team, name: name.to_string() });
    }
    roster
}

fn board(rows: &[&[Team]]) -> Board {
    let squares = rows.iter().map(|row| row.iter().map(|t| Square::new(*t)).collect()).collect();
    Board::new(Roster::new(), squares).unwrap()
}

#[test]
fn players_are_counted_by_team() {
    let roster = players(&[
        ("ann", Team::Red),
        ("bob", Team::Blue),
        ("cat", Team::Red),
        ("dan", Team::Null),
        ("eve", Team::Red),
    ]);
    assert_eq!(count_players(&roster), Tally { null: 1, red: 3, green: 0, blue: 1 });
    assert_eq!(count_players(&players(&[])), Tally { null: 0, red: 0, green: 0, blue: 0 });
}

#[test]
fn squares_are_counted_by_team() {
    let b = board(&[
        &[Team::Red, Team::Null, Team::Blue],
        &[Team::Red, Team::Green, Team::Blue],
    ]);
    let tally = count_squares(&b);
    assert_eq!(tally, Tally { null: 1, red: 2, green: 1, blue: 2 });
    assert_eq!(tally.of(Team::Null), 1);
    assert_eq!(tally.of(Team::Red), 2);
    assert_eq!(tally.of(Team::Green), 1);
    assert_eq!(tally.of(Team::Blue), 2);
}

#[test]
fn the_report_counts_the_newest_board() {
    let old = board(&[&[Team::Null, Team::Null]]);
    let new = board(&[&[Team::Red, Team::Null], &[Team::Red, Team::Green]]);
    let game = Game {
        us: None,
        players: players(&[("ann", Team::Red), ("bob", Team::Green)]),
        timeline: vec![old, new],
    };
    let report = show(&game);
    assert_eq!(report.players, Tally { null: 0, red: 1, green: 1, blue: 0 });
    assert_eq!(report.squares, Tally { null: 1, red: 2, green: 1, blue: 0 });
    assert_eq!(report.total_squares, 4);
}
