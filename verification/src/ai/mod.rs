//! Choosing a move. The target is found first, then each of the five moves
//! is surveyed, and once the moves are scored the best of them is chosen.

pub mod scorer;
pub mod selector;
pub mod target;

pub use self::scorer::{
    appraise, correct_way, squares_in_direction, survey, Candidate, Survey, Worth,
    ALIGNMENT_BONUS, FALLOFF_TENTHS,
};
pub use self::selector::choose_direction;
pub use self::target::{
    controller_of, find_incursion, find_target_square, steps_between, DEFEND_RANGE, ZONE_SIZE,
};
