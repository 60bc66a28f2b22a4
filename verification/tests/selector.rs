use gitland_ai::ai::choose_direction;
use gitland_ai::game::Direction;

#[test]
fn all_zero_scores_give_left() {
    // No candidate beats the score of nought that the search starts with,
    // so the direction it starts with, Left, is what comes out.
    let scores = vec![
        (0, Direction::Null),
        (0, Direction::Left),
        (0, Direction::Right),
        (0, Direction::Up),
        (0, Direction::Down),
    ];
    assert_eq!(choose_direction(&scores), Direction::Left);
}

#[test]
fn single_highest_score_wins() {
    let scores = vec![
        (0, Direction::Null),
        (3, Direction::Left),
        (3, Direction::Right),
        (1, Direction::Up),
        (5, Direction::Down),
    ];
    assert_eq!(choose_direction(&scores), Direction::Down);
}

#[test]
fn the_first_of_equal_scores_wins() {
    let scores = vec![
        (0, Direction::Null),
        (2, Direction::Up),
        (7, Direction::Right),
        (7, Direction::Down),
        (7, Direction::Left),
    ];
    assert_eq!(choose_direction(&scores), Direction::Right);
}

#[test]
fn scores_below_nought_give_left() {
    let scores = vec![(-3, Direction::Up), (-1, Direction::Down), (0, Direction::Right)];
    assert_eq!(choose_direction(&scores), Direction::Left);
    assert_eq!(choose_direction(&Vec::new()), Direction::Left);
}

#[test]
fn the_highest_score_wins_wherever_it_stands() {
    let others = [Direction::Null, Direction::Left, Direction::Right, Direction::Up];
    for at in 0..5 {
        let mut scores: Vec<(i64, Direction)> =
            others.iter().enumerate().map(|(i, d)| (i as i64, *d)).collect();
        scores.insert(at, (9, Direction::Down));
        assert_eq!(choose_direction(&scores), Direction::Down);
    }
    assert_eq!(choose_direction(&vec![(i64::MAX, Direction::Null)]), Direction::Null);
}
