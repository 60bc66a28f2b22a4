use gitland_ai::ai::{
    appraise, choose_direction, correct_way, squares_in_direction, survey, Worth,
    ALIGNMENT_BONUS, FALLOFF_TENTHS,
};
use gitland_ai::board::{mark_players, Board};
use gitland_ai::game::{Direction, Game, Player, Position, Square, Team};
use gitland_ai::roster::Roster;

fn game(
    width: usize,
    height: usize,
    players: &[(&str, Team, i32, i32)],
    owned: &[(i32, i32, Team)],
) -> Game {
    let mut squares: Vec<Vec<Square>> = (0..height)
        .map(|_| (0..width).map(|_| Square::new(Team::Null)).collect())
        .collect();
    for (x, y, team) in owned {
        squares[*y as usize][*x as usize].controlled_by = *team;
    }
    let mut places = Roster::new();
    let mut enrolled = Roster::new();
    for (name, team, x, y) in players {
        places.insert(name.to_string(), Position::new(*x, *y));
        enrolled.insert(name.to_string(), Player { team: *team, name: name.to_string() });
    }
    let squares = mark_players(squares, &places);
    let board = Board::new(places, squares).unwrap();
    Game { us: Some(players[0].0.to_string()), players: enrolled, timeline: vec![board] }
}

/// The score of a ray: each square counts its worth times the weight of
/// its step, which starts at one and falls off with every step.
fn score(squares: &[Worth], aligned: bool) -> f32 {
    let falloff = FALLOFF_TENTHS as f32 / 10.0;
    let mut total = 0.0;
    let mut weight = 1.0;
    for worth in squares {
        total += weight * (worth.percent() as f32 / 100.0);
        weight *= falloff;
    }
    if aligned {
        total + ALIGNMENT_BONUS as f32
    } else {
        total
    }
}

#[test]
fn staying_shows_nothing() {
    let g = game(7, 7, &[("us", Team::Red, 3, 3)], &[(4, 3, Team::Blue)]);
    let seen = squares_in_direction(g.map(), Position::new(3, 3), Position::new(0, 0), Team::Red);
    assert!(seen.is_empty());
    assert_eq!(score(&seen, false), 0.0);
    let crowded = game(
        7,
        7,
        &[("us", Team::Red, 3, 3), ("bob", Team::Blue, 2, 3), ("cat", Team::Blue, 3, 4)],
        &[],
    );
    let seen =
        squares_in_direction(crowded.map(), Position::new(3, 3), Position::new(0, 0), Team::Red);
    assert!(seen.is_empty());
}

#[test]
fn a_ray_blocked_at_once_shows_nothing() {
    let g = game(7, 7, &[("us", Team::Red, 3, 3), ("bob", Team::Blue, 4, 3)], &[]);
    let seen = squares_in_direction(g.map(), Position::new(3, 3), Position::new(1, 0), Team::Red);
    assert!(seen.is_empty());
    assert_eq!(score(&seen, false), 0.0);
    assert_eq!(score(&seen, true), 2.0);
    let friend = game(7, 7, &[("us", Team::Red, 3, 3), ("ann", Team::Red, 4, 3)], &[]);
    let seen =
        squares_in_direction(friend.map(), Position::new(3, 3), Position::new(1, 0), Team::Red);
    assert!(seen.is_empty());
}

#[test]
fn a_ray_at_the_edge_shows_nothing() {
    let g = game(4, 4, &[("us", Team::Red, 0, 3)], &[]);
    let board = g.map();
    let at = Position::new(0, 3);
    assert!(squares_in_direction(board, at, Position::new(-1, 0), Team::Red).is_empty());
    assert!(squares_in_direction(board, at, Position::new(0, 1), Team::Red).is_empty());
    assert_eq!(squares_in_direction(board, at, Position::new(1, 0), Team::Red).len(), 3);
    assert_eq!(squares_in_direction(board, at, Position::new(0, -1), Team::Red).len(), 3);
}

#[test]
fn a_ray_shows_each_square_up_to_the_first_blocked() {
    let g = game(
        8,
        1,
        &[("us", Team::Red, 1, 0), ("bob", Team::Blue, 6, 0)],
        &[(3, 0, Team::Blue), (4, 0, Team::Red), (5, 0, Team::Green), (7, 0, Team::Blue)],
    );
    let seen = squares_in_direction(g.map(), Position::new(1, 0), Position::new(1, 0), Team::Red);
    assert_eq!(seen, vec![Worth::Neutral, Worth::Opponent, Worth::Own, Worth::Opponent]);
    let seen = squares_in_direction(g.map(), Position::new(1, 0), Position::new(-1, 0), Team::Red);
    assert_eq!(seen, vec![Worth::Neutral]);
}

#[test]
fn a_ray_follows_any_vector() {
    let g = game(
        7,
        5,
        &[("us", Team::Red, 0, 0)],
        &[(2, 1, Team::Blue), (4, 2, Team::Red), (1, 1, Team::Green)],
    );
    let seen = squares_in_direction(g.map(), Position::new(0, 0), Position::new(2, 1), Team::Red);
    assert_eq!(seen, vec![Worth::Opponent, Worth::Own, Worth::Neutral]);
    let seen = squares_in_direction(g.map(), Position::new(6, 4), Position::new(-5, -3), Team::Red);
    assert_eq!(seen, vec![Worth::Opponent]);
    let seen = squares_in_direction(g.map(), Position::new(-3, 2), Position::new(1, 0), Team::Red);
    assert!(seen.is_empty());
    let seen = squares_in_direction(
        g.map(),
        Position::new(i32::MAX, i32::MAX),
        Position::new(i32::MAX, i32::MAX),
        Team::Red,
    );
    assert!(seen.is_empty());
}

#[test]
fn a_ray_may_start_off_the_board() {
    let g = game(3, 1, &[("us", Team::Red, 2, 0)], &[]);
    let seen = squares_in_direction(g.map(), Position::new(-1, 0), Position::new(1, 0), Team::Red);
    assert_eq!(seen, vec![Worth::Neutral, Worth::Neutral]);
}

#[test]
fn squares_are_worth_what_their_holder_makes_them() {
    assert_eq!(appraise(&Square::new(Team::Null), Team::Red), Worth::Neutral);
    assert_eq!(appraise(&Square::new(Team::Blue), Team::Red), Worth::Opponent);
    assert_eq!(appraise(&Square::new(Team::Red), Team::Red), Worth::Own);
    assert_eq!(appraise(&Square::new(Team::Null), Team::Null), Worth::Neutral);
    assert_eq!(Worth::Neutral.percent(), 80);
    assert_eq!(Worth::Opponent.percent(), 100);
    assert_eq!(Worth::Own.percent(), 1);
    assert_eq!(FALLOFF_TENTHS, 7);
    assert_eq!(ALIGNMENT_BONUS, 2);
}

#[test]
fn a_ray_scores_by_worth_and_distance() {
    // 0.8 + 0.7 * 1.0 + 0.49 * 0.01
    let seen = [Worth::Neutral, Worth::Opponent, Worth::Own];
    assert!((score(&seen, false) - 1.5049).abs() < 1e-6);
    assert!((score(&seen, true) - 3.5049).abs() < 1e-6);
    assert_eq!(score(&[Worth::Opponent], false), 1.0);
}

#[test]
fn a_move_is_correct_when_it_leads_to_the_target() {
    let pos = Position::new(3, 3);
    let target = Position::new(7, 1);
    assert!(correct_way(Direction::Right, target, pos));
    assert!(correct_way(Direction::Up, target, pos));
    assert!(!correct_way(Direction::Left, target, pos));
    assert!(!correct_way(Direction::Down, target, pos));
    assert!(!correct_way(Direction::Null, target, pos));
    assert!(correct_way(Direction::Null, pos, pos));
    assert!(!correct_way(Direction::Left, pos, pos));
    assert!(!correct_way(Direction::Right, pos, pos));
    assert!(!correct_way(Direction::Up, pos, pos));
    assert!(!correct_way(Direction::Down, pos, pos));
    assert!(!correct_way(Direction::Null, Position::new(3, 4), pos));
    assert!(correct_way(Direction::Down, Position::new(3, 4), pos));
}

#[test]
fn the_survey_looks_in_every_direction() {
    let g = game(12, 8, &[("us", Team::Red, 3, 5), ("bob", Team::Blue, 10, 5)], &[]);
    let found = survey(&g);
    let (target, reason) = found.target.unwrap();
    assert_eq!(target, Position::new(7, 5));
    assert_eq!(reason, "defend against bob at (10, 5)");
    let directions: Vec<Direction> = found.candidates.iter().map(|c| c.direction).collect();
    assert_eq!(
        directions,
        vec![
            Direction::Null,
            Direction::Left,
            Direction::Right,
            Direction::Up,
            Direction::Down
        ]
    );
    let lengths: Vec<usize> = found.candidates.iter().map(|c| c.squares.len()).collect();
    assert_eq!(lengths, vec![0, 3, 6, 5, 2]);
    let aligned: Vec<bool> = found.candidates.iter().map(|c| c.aligned).collect();
    assert_eq!(aligned, vec![false, false, true, false, false]);
}

#[test]
fn without_a_target_no_move_is_aligned() {
    let g = game(7, 7, &[("us", Team::Red, 3, 3)], &[]);
    let found = survey(&g);
    assert!(found.target.is_none());
    assert!(found.candidates.iter().all(|c| !c.aligned));
}

#[test]
fn on_the_target_staying_is_aligned() {
    let g = game(12, 12, &[("us", Team::Red, 7, 7), ("bob", Team::Blue, 9, 9)], &[]);
    let found = survey(&g);
    assert_eq!(found.target.as_ref().unwrap().0, Position::new(7, 7));
    let aligned: Vec<bool> = found.candidates.iter().map(|c| c.aligned).collect();
    assert_eq!(aligned, vec![true, false, false, false, false]);
}

#[test]
fn symmetric_ground_gives_equal_scores_and_left() {
    let g = game(7, 7, &[("us", Team::Red, 3, 3)], &[]);
    let found = survey(&g);
    assert!(found.target.is_none());
    let scores: Vec<f32> =
        found.candidates.iter().map(|c| score(&c.squares, c.aligned)).collect();
    assert_eq!(scores[0], 0.0);
    for s in &scores[1..] {
        assert!((s - scores[1]).abs() < 1e-6);
        assert!((s - 1.752).abs() < 1e-6);
    }
    // The scores are not negative, so their bit patterns are ordered as
    // they are. All four moves score alike: the first of them, Left, is
    // kept, since a later one replaces it only with a strictly higher score.
    let ranked: Vec<(i64, Direction)> = found
        .candidates
        .iter()
        .zip(&scores)
        .map(|(c, s)| (s.to_bits() as i64, c.direction))
        .collect();
    assert_eq!(choose_direction(&ranked), Direction::Left);
}

#[test]
fn the_target_decides_between_equal_rays() {
    let g = game(30, 7, &[("us", Team::Red, 3, 3), ("bob", Team::Blue, 9, 2)], &[]);
    let found = survey(&g);
    assert_eq!(found.target.as_ref().unwrap().0, Position::new(7, 2));
    let ranked: Vec<(i64, Direction)> = found
        .candidates
        .iter()
        .map(|c| (score(&c.squares, c.aligned).to_bits() as i64, c.direction))
        .collect();
    assert_eq!(choose_direction(&ranked), Direction::Right);
}
