//! Which cell to make for: back into the home zone, or to where the zone
//! is to be defended against the most urgent threat.

use vstd::prelude::*;
use vstd::string::*;
use crate::board::Board;
use crate::game::{Game, Position, Team};

verus! {

/// The home zone is the part of the board whose coordinates are at most
/// this.
pub const ZONE_SIZE: i32 = 7;

/// An opponent whose urgency reaches this is too far away to defend against.
pub const DEFEND_RANGE: i32 = 14;

/// The number of steps between `a` and `b` where a step changes one
/// coordinate by one.
pub open spec fn distance(a: Position, b: Position) -> int {
    (if a.x >= b.x {
        a.x - b.x
    } else {
        b.x - a.x
    }) + (if a.y >= b.y {
        a.y - b.y
    } else {
        b.y - a.y
    })
}

/// The side that controls the cell at column `x` of row `y`; no side where
/// the board has no such cell.
pub open spec fn controller_at(board: Board, x: int, y: int) -> Team {
    if board.holds(x, y) {
        board.cell(x, y).controlled_by
    } else {
        Team::Null
    }
}

/// A threat to the zone: the cell from which to defend against it, and how
/// urgent that is. The smaller the urgency, the more urgent the threat.
pub ghost struct Threat {
    pub target: Position,
    pub urgency: int,
}

/// The threat that a player of `team` who stands at `at` is, seen from `me`;
/// nothing where that player does not threaten the zone. A player beyond
/// the zone's right edge threatens it unless their side controls the cell
/// to their left, one below its bottom edge unless their side controls the
/// cell above them, and one beyond both unless their side controls both
/// cells. The urgency is the number of steps to the player, less the defend
/// range, plus the number of steps that the player is beyond each edge.
pub open spec fn incursion(board: Board, me: Position, at: Position, team: Team) -> Option<
    Threat,
> {
    let owns_left = controller_at(board, at.x - 1, at.y as int) == team;
    let owns_top = controller_at(board, at.x as int, at.y - 1) == team;
    let reach = distance(me, at) - DEFEND_RANGE;
    if at.x > ZONE_SIZE && at.y <= ZONE_SIZE {
        if owns_left {
            None
        } else {
            Some(
                Threat {
                    target: Position { x: ZONE_SIZE, y: at.y },
                    urgency: reach + (at.x - ZONE_SIZE),
                },
            )
        }
    } else if at.x <= ZONE_SIZE && at.y > ZONE_SIZE {
        if owns_top {
            None
        } else {
            Some(
                Threat {
                    target: Position { x: at.x, y: ZONE_SIZE },
                    urgency: reach + (at.y - ZONE_SIZE),
                },
            )
        }
    } else if at.x > ZONE_SIZE && at.y > ZONE_SIZE {
        if owns_left && owns_top {
            None
        } else {
            Some(
                Threat {
                    target: Position { x: ZONE_SIZE, y: ZONE_SIZE },
                    urgency: reach + (at.x - ZONE_SIZE) + (at.y - ZONE_SIZE),
                },
            )
        }
    } else {
        None
    }
}

/// The threat that the `i`-th player on the current board is to us. Players
/// of our own side are none, nor are players in the first column or the
/// first row.
pub open spec fn threat(game: Game, i: int) -> Option<Threat> {
    let board = game.current();
    let at = board.roster().values()[i];
    let team = game.players@[board.roster().names()[i]].team;
    if team == game.spec_our_team() || at.x == 0 || at.y == 0 {
        None
    } else {
        incursion(board, game.spec_our_position(), at, team)
    }
}

/// Whether the `i`-th player on the current board is the first of those
/// whose threat is the most urgent.
pub open spec fn leads_threats(game: Game, i: int) -> bool {
    &&& 0 <= i < game.current().roster().names().len()
    &&& threat(game, i) is Some
    &&& forall|j: int|
        0 <= j < game.current().roster().names().len() && (#[trigger] threat(game, j)) is Some
            ==> threat(game, j).unwrap().urgency >= threat(game, i).unwrap().urgency
    &&& forall|j: int|
        0 <= j < i && (#[trigger] threat(game, j)) is Some ==> threat(game, j).unwrap().urgency
            > threat(game, i).unwrap().urgency
}

/// The words that say why a player is defended against.
pub open spec fn defence_reason(name: Seq<char>, at: Position) -> Seq<char> {
    "defend against "@ + name + " at "@ + at.text()
}

/// Whether `found` is the cell to make for in `game`, with the reason.
/// Outside the zone we make for the nearest cell of the zone. Inside it we
/// make for the cell that defends against the first of the most urgent
/// threats, if that threat is within the defend range, and for nothing
/// otherwise.
pub open spec fn is_target(game: Game, found: Option<(Position, String)>) -> bool {
    let me = game.spec_our_position();
    if me.x > ZONE_SIZE || me.y > ZONE_SIZE {
        &&& found is Some
        &&& found.unwrap().0 == (Position {
            x: if me.x > ZONE_SIZE {
                ZONE_SIZE
            } else {
                me.x
            },
            y: if me.y > ZONE_SIZE {
                ZONE_SIZE
            } else {
                me.y
            },
        })
        &&& found.unwrap().1@ == "enter zone"@
    } else {
        match found {
            Some((target, reason)) => exists|i: int|
                {
                    &&& #[trigger] leads_threats(game, i)
                    &&& threat(game, i).unwrap().urgency < DEFEND_RANGE
                    &&& target == threat(game, i).unwrap().target
                    &&& reason@ == defence_reason(
                        game.current().roster().names()[i],
                        game.current().roster().values()[i],
                    )
                },
            None => forall|i: int|
                0 <= i < game.current().roster().names().len() && (#[trigger] threat(game, i))
                    is Some ==> threat(game, i).unwrap().urgency >= DEFEND_RANGE,
        }
    }
}

/// The number of steps between `a` and `b`.
pub fn steps_between(a: Position, b: Position) -> (d: i64)
    ensures
        d == distance(a, b),
{
    let dx: i64 = if a.x >= b.x {
        a.x as i64 - b.x as i64
    } else {
        b.x as i64 - a.x as i64
    };
    let dy: i64 = if a.y >= b.y {
        a.y as i64 - b.y as i64
    } else {
        b.y as i64 - a.y as i64
    };
    dx + dy
}

/// The side that controls the square at `pos`; no side where `pos` is
/// outside the board.
pub fn controller_of(board: &Board, pos: Position) -> (team: Team)
    ensures
        team == controller_at(*board, pos.x as int, pos.y as int),
{
    match board.square(pos) {
        Some(square) => square.controlled_by,
        None => Team::Null,
    }
}

/// The cell to defend and the urgency of defending it against a player of
/// `team` who stands at `at`, seen from `me`.
pub fn find_incursion(board: &Board, me: Position, at: Position, team: Team) -> (r: Option<
    (Position, i64),
>)
    ensures
        match r {
            Some((target, urgency)) => incursion(*board, me, at, team) == Some(
                Threat { target, urgency: urgency as int },
            ),
            None => incursion(*board, me, at, team) is None,
        },
{
    let reach: i64 = steps_between(me, at) - DEFEND_RANGE as i64;
    let right = at.x > ZONE_SIZE;
    let below = at.y > ZONE_SIZE;
    if !right && !below {
        return None;
    }
    let owns_left = right && controller_of(board, Position::new(at.x - 1, at.y)) == team;
    let owns_top = below && controller_of(board, Position::new(at.x, at.y - 1)) == team;
    if right && !below {
        if owns_left {
            None
        } else {
            Some((Position::new(ZONE_SIZE, at.y), reach + (at.x as i64 - ZONE_SIZE as i64)))
        }
    } else if !right && below {
        if owns_top {
            None
        } else {
            Some((Position::new(at.x, ZONE_SIZE), reach + (at.y as i64 - ZONE_SIZE as i64)))
        }
    } else {
        if owns_left && owns_top {
            None
        } else {
            Some(
                (
                    Position::new(ZONE_SIZE, ZONE_SIZE),
                    reach + (at.x as i64 - ZONE_SIZE as i64) + (at.y as i64 - ZONE_SIZE as i64),
                ),
            )
        }
    }
}

/// The cell to make for on this turn and the reason for it, or nothing
/// where there is no cell to make for.
pub fn find_target_square(game: &Game) -> (found: Option<(Position, String)>)
    requires
        game.playable(),
    ensures
        is_target(*game, found),
{
    let starting = game.our_position();
    if starting.x > ZONE_SIZE || starting.y > ZONE_SIZE {
        let target = Position::new(
            if starting.x > ZONE_SIZE {
                ZONE_SIZE
            } else {
                starting.x
            },
            if starting.y > ZONE_SIZE {
                ZONE_SIZE
            } else {
                starting.y
            },
        );
        return Some((target, String::from_str("enter zone")));
    }
    let board = game.map();
    let our_team = game.our_team();
    let standing = board.players();
    let mut worst: Option<(usize, Position, i64)> = None;
    let mut i: usize = 0;
    while i < standing.len()
        invariant
            i <= standing.names().len(),
            game.playable(),
            *board == game.current(),
            *standing == board.roster(),
            starting == game.spec_our_position(),
            our_team == game.spec_our_team(),
            match worst {
                Some((k, target, urgency)) => {
                    &&& k < i
                    &&& threat(*game, k as int) == Some(
                        Threat { target, urgency: urgency as int },
                    )
                    &&& forall|j: int|
                        0 <= j < i && (#[trigger] threat(*game, j)) is Some ==> threat(
                            *game,
                            j,
                        ).unwrap().urgency >= urgency
                    &&& forall|j: int|
                        0 <= j < k && (#[trigger] threat(*game, j)) is Some ==> threat(
                            *game,
                            j,
                        ).unwrap().urgency > urgency
                },
                None => forall|j: int| 0 <= j < i ==> (#[trigger] threat(*game, j)) is None,
            },
        decreases standing.names().len() - i,
    {
        let name = standing.name_at(i);
        let at = *standing.value_at(i);
        let team = match game.players.get(name.as_str()) {
            Some(player) => player.team,
            None => vstd::pervasive::unreached(),
        };
        if !(team == our_team || at.x == 0 || at.y == 0) {
            match find_incursion(board, starting, at, team) {
                Some((target, urgency)) => {
                    let closer = match worst {
                        Some((_, _, least)) => urgency < least,
                        None => true,
                    };
                    if closer {
                        worst = Some((i, target, urgency));
                    }
                },
                None => {},
            }
        }
        i += 1;
    }
    match worst {
        Some((k, target, urgency)) => {
            if urgency < DEFEND_RANGE as i64 {
                let mut reason = String::from_str("defend against ");
                reason.append(standing.name_at(k).as_str());
                reason.append(" at ");
                let place = standing.value_at(k).to_string();
                reason.append(place.as_str());
                proof {
                    assert(leads_threats(*game, k as int));
                    assert(reason@ =~= defence_reason(
                        standing.names()[k as int],
                        standing.values()[k as int],
                    ));
                }
                Some((target, reason))
            } else {
                None
            }
        },
        None => None,
    }
}

/// The game has one target only.
pub proof fn law_one_target(
    game: Game,
    one: Option<(Position, String)>,
    other: Option<(Position, String)>,
)
    requires
        is_target(game, one),
        is_target(game, other),
    ensures
        one is Some <==> other is Some,
        one is Some ==> one.unwrap().0 == other.unwrap().0 && one.unwrap().1@ == other.unwrap().1@,
{
    let me = game.spec_our_position();
    if !(me.x > ZONE_SIZE || me.y > ZONE_SIZE) {
        if one is Some {
            let i = choose|i: int|
                {
                    &&& #[trigger] leads_threats(game, i)
                    &&& threat(game, i).unwrap().urgency < DEFEND_RANGE
                    &&& one.unwrap().0 == threat(game, i).unwrap().target
                    &&& one.unwrap().1@ == defence_reason(
                        game.current().roster().names()[i],
                        game.current().roster().values()[i],
                    )
                };
            assert(leads_threats(game, i));
            assert(threat(game, i) is Some);
            if other is Some {
                let j = choose|j: int|
                    {
                        &&& #[trigger] leads_threats(game, j)
                        &&& threat(game, j).unwrap().urgency < DEFEND_RANGE
                        &&& other.unwrap().0 == threat(game, j).unwrap().target
                        &&& other.unwrap().1@ == defence_reason(
                            game.current().roster().names()[j],
                            game.current().roster().values()[j],
                        )
                    };
                assert(leads_threats(game, j));
                assert(threat(game, j) is Some);
                assert(i == j);
            }
        } else if other is Some {
            let j = choose|j: int|
                {
                    &&& #[trigger] leads_threats(game, j)
                    &&& threat(game, j).unwrap().urgency < DEFEND_RANGE
                    &&& other.unwrap().0 == threat(game, j).unwrap().target
                    &&& other.unwrap().1@ == defence_reason(
                        game.current().roster().names()[j],
                        game.current().roster().values()[j],
                    )
                };
            assert(leads_threats(game, j));
            assert(threat(game, j) is Some);
        }
    }
}

/// From outside the zone the target is the nearest cell of the zone,
/// whoever else is on the board.
pub proof fn law_outside_the_zone(game: Game, found: Option<(Position, String)>)
    requires
        is_target(game, found),
        game.spec_our_position().x > ZONE_SIZE || game.spec_our_position().y > ZONE_SIZE,
    ensures
        found is Some,
        found.unwrap().0.x == if game.spec_our_position().x > ZONE_SIZE {
            ZONE_SIZE
        } else {
            game.spec_our_position().x
        },
        found.unwrap().0.y == if game.spec_our_position().y > ZONE_SIZE {
            ZONE_SIZE
        } else {
            game.spec_our_position().y
        },
        found.unwrap().1@ == "enter zone"@,
{
}

} // verus!
