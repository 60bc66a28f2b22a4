use gitland_ai::ai::{
    controller_of, find_incursion, find_target_square, steps_between, DEFEND_RANGE, ZONE_SIZE,
};
use gitland_ai::board::{mark_players, Board};
use gitland_ai::game::{Game, Player, Position, Square, Team};
use gitland_ai::roster::Roster;

/// A game on a neutral grid where `us` is the first of `players`. Each
/// entry of `owned` hands one cell to a team.
fn game(
    width: usize,
    height: usize,
    players: &[(&str, Team, i32, i32)],
    owned: &[(i32, i32, Team)],
) -> Game {
    let mut squares: Vec<Vec<Square>> = (0..height)
        .map(|_| (0..width).map(|_| Square::new(Team::Null)).collect())
        .collect();
    for (x, y, team) in owned {
        squares[*y as usize][*x as usize].controlled_by = *team;
    }
    let mut places = Roster::new();
    let mut enrolled = Roster::new();
    for (name, team, x, y) in players {
        places.insert(name.to_string(), Position::new(*x, *y));
        enrolled.insert(name.to_string(), Player { team: *team, name: name.to_string() });
    }
    let squares = mark_players(squares, &places);
    let board = Board::new(places, squares).unwrap();
    Game { us: Some(players[0].0.to_string()), players: enrolled, timeline: vec![board] }
}

#[test]
fn the_zone_and_the_range_are_as_agreed() {
    assert_eq!(ZONE_SIZE, 7);
    assert_eq!(DEFEND_RANGE, 14);
}

#[test]
fn outside_the_zone_we_return_to_it() {
    let alone = game(12, 12, &[("us", Team::Red, 9, 4)], &[]);
    let (target, reason) = find_target_square(&alone).unwrap();
    assert_eq!(target, Position::new(7, 4));
    assert_eq!(reason, "enter zone");
}

#[test]
fn outside_the_zone_other_players_do_not_count() {
    let crowded = game(
        12,
        12,
        &[("us", Team::Red, 9, 4), ("bob", Team::Blue, 10, 5), ("cat", Team::Green, 2, 9)],
        &[],
    );
    let (target, reason) = find_target_square(&crowded).unwrap();
    assert_eq!(target, Position::new(7, 4));
    assert_eq!(reason, "enter zone");
}

#[test]
fn outside_the_zone_each_coordinate_is_clamped() {
    let below = game(12, 12, &[("us", Team::Red, 3, 9)], &[]);
    assert_eq!(find_target_square(&below).unwrap().0, Position::new(3, 7));
    let beyond = game(12, 12, &[("us", Team::Red, 11, 8)], &[]);
    assert_eq!(find_target_square(&beyond).unwrap().0, Position::new(7, 7));
    let edge = game(12, 12, &[("us", Team::Red, 7, 7)], &[]);
    assert!(find_target_square(&edge).is_none());
}

#[test]
fn an_opponent_beside_the_zone_is_defended_against() {
    // The urgency is (7 - 14) + (10 - 7) = -4, which is below the range.
    let g = game(12, 8, &[("us", Team::Red, 3, 5), ("bob", Team::Blue, 10, 5)], &[]);
    let (target, reason) = find_target_square(&g).unwrap();
    assert_eq!(target, Position::new(7, 5));
    assert_eq!(reason, "defend against bob at (10, 5)");
}

#[test]
fn an_opponent_who_owns_the_cell_to_the_left_is_no_threat() {
    let g = game(
        12,
        8,
        &[("us", Team::Red, 3, 5), ("bob", Team::Blue, 10, 5)],
        &[(9, 5, Team::Blue)],
    );
    assert!(find_target_square(&g).is_none());
    let other = game(
        12,
        8,
        &[("us", Team::Red, 3, 5), ("bob", Team::Blue, 10, 5)],
        &[(9, 5, Team::Green)],
    );
    assert_eq!(find_target_square(&other).unwrap().0, Position::new(7, 5));
}

#[test]
fn an_opponent_below_the_zone_is_defended_against() {
    let g = game(8, 12, &[("us", Team::Red, 2, 2), ("bob", Team::Green, 5, 10)], &[]);
    let (target, reason) = find_target_square(&g).unwrap();
    assert_eq!(target, Position::new(5, 7));
    assert_eq!(reason, "defend against bob at (5, 10)");
    let owned = game(
        8,
        12,
        &[("us", Team::Red, 2, 2), ("bob", Team::Green, 5, 10)],
        &[(5, 9, Team::Green)],
    );
    assert!(find_target_square(&owned).is_none());
}

#[test]
fn an_opponent_beyond_both_edges_threatens_the_corner() {
    let players = [("us", Team::Red, 3, 3), ("bob", Team::Blue, 10, 10)];
    let free = game(12, 12, &players, &[]);
    assert_eq!(find_target_square(&free).unwrap().0, Position::new(7, 7));
    let left = game(12, 12, &players, &[(9, 10, Team::Blue)]);
    assert_eq!(find_target_square(&left).unwrap().0, Position::new(7, 7));
    let top = game(12, 12, &players, &[(10, 9, Team::Blue)]);
    assert_eq!(find_target_square(&top).unwrap().0, Position::new(7, 7));
    let both = game(12, 12, &players, &[(9, 10, Team::Blue), (10, 9, Team::Blue)]);
    assert!(find_target_square(&both).is_none());
}

#[test]
fn our_own_side_is_no_threat() {
    let g = game(12, 8, &[("us", Team::Red, 3, 5), ("ann", Team::Red, 10, 5)], &[]);
    assert!(find_target_square(&g).is_none());
}

#[test]
fn players_in_the_first_row_or_column_are_no_threat() {
    let row = game(12, 8, &[("us", Team::Red, 3, 5), ("bob", Team::Blue, 10, 0)], &[]);
    assert!(find_target_square(&row).is_none());
    let column = game(8, 12, &[("us", Team::Red, 3, 5), ("bob", Team::Blue, 0, 10)], &[]);
    assert!(find_target_square(&column).is_none());
}

#[test]
fn a_threat_at_the_range_is_too_far() {
    // From (7, 5) to (21, 5) are 14 steps: (14 - 14) + (21 - 7) = 14.
    let far = game(30, 8, &[("us", Team::Red, 7, 5), ("bob", Team::Blue, 21, 5)], &[]);
    assert!(find_target_square(&far).is_none());
    // From (7, 4) to (20, 5) are 14 steps: (14 - 14) + (20 - 7) = 13.
    let near = game(30, 8, &[("us", Team::Red, 7, 4), ("bob", Team::Blue, 20, 5)], &[]);
    assert_eq!(find_target_square(&near).unwrap().0, Position::new(7, 5));
}

#[test]
fn the_most_urgent_threat_wins() {
    let g = game(
        30,
        12,
        &[
            ("us", Team::Red, 3, 3),
            ("far", Team::Blue, 15, 3),
            ("near", Team::Green, 9, 4),
            ("low", Team::Blue, 4, 11),
        ],
        &[],
    );
    let (target, reason) = find_target_square(&g).unwrap();
    assert_eq!(target, Position::new(7, 4));
    assert_eq!(reason, "defend against near at (9, 4)");
}

#[test]
fn of_equal_threats_the_first_wins() {
    // Both are 6 steps away and one step beyond their edge.
    let g = game(
        12,
        12,
        &[("us", Team::Red, 3, 3), ("low", Team::Blue, 4, 8), ("side", Team::Blue, 8, 4)],
        &[],
    );
    let (target, reason) = find_target_square(&g).unwrap();
    assert_eq!(target, Position::new(4, 7));
    assert_eq!(reason, "defend against low at (4, 8)");
    let g = game(
        12,
        12,
        &[("us", Team::Red, 3, 3), ("side", Team::Blue, 8, 4), ("low", Team::Blue, 4, 8)],
        &[],
    );
    let (target, reason) = find_target_square(&g).unwrap();
    assert_eq!(target, Position::new(7, 4));
    assert_eq!(reason, "defend against side at (8, 4)");
}

#[test]
fn no_opponent_no_target() {
    let g = game(8, 8, &[("us", Team::Red, 3, 3), ("bob", Team::Blue, 5, 5)], &[]);
    assert!(find_target_square(&g).is_none());
}

#[test]
fn steps_are_counted_along_the_axes() {
    assert_eq!(steps_between(Position::new(3, 5), Position::new(10, 5)), 7);
    assert_eq!(steps_between(Position::new(10, 5), Position::new(3, 9)), 11);
    assert_eq!(steps_between(Position::new(0, 0), Position::new(0, 0)), 0);
    assert_eq!(
        steps_between(Position::new(i32::MIN, i32::MIN), Position::new(i32::MAX, i32::MAX)),
        2 * (u32::MAX as i64)
    );
}

#[test]
fn nobody_controls_what_is_off_the_board() {
    let g = game(3, 3, &[("us", Team::Red, 1, 1)], &[(2, 1, Team::Blue)]);
    let board = g.map();
    assert_eq!(controller_of(board, Position::new(2, 1)), Team::Blue);
    assert_eq!(controller_of(board, Position::new(0, 0)), Team::Null);
    assert_eq!(controller_of(board, Position::new(3, 1)), Team::Null);
    assert_eq!(controller_of(board, Position::new(-1, 1)), Team::Null);
}

#[test]
fn an_incursion_has_its_cell_and_its_urgency() {
    let g = game(12, 12, &[("us", Team::Red, 3, 5)], &[(9, 6, Team::Blue)]);
    let board = g.map();
    let me = Position::new(3, 5);
    assert_eq!(
        find_incursion(board, me, Position::new(10, 5), Team::Blue),
        Some((Position::new(7, 5), -4))
    );
    assert_eq!(find_incursion(board, me, Position::new(10, 6), Team::Blue), None);
    assert_eq!(
        find_incursion(board, me, Position::new(10, 6), Team::Green),
        Some((Position::new(7, 6), -3))
    );
    assert_eq!(
        find_incursion(board, me, Position::new(5, 9), Team::Blue),
        Some((Position::new(5, 7), -6))
    );
    assert_eq!(
        find_incursion(board, me, Position::new(9, 9), Team::Blue),
        Some((Position::new(7, 7), 0))
    );
    assert_eq!(find_incursion(board, me, Position::new(7, 7), Team::Blue), None);
    assert_eq!(find_incursion(board, me, Position::new(2, 2), Team::Blue), None);
}
