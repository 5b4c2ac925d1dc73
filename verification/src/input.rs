use vstd::prelude::*;
use crate::cube::Face;

verus! {

/// The layer turn a key asks for: the letter keys R, L, U, D, F and B name a face,
/// and the turn is clockwise unless shift is held.
pub open spec fn key_turn(key: char, shift: bool) -> Option<(Face, bool)> {
    if key == 'R' {
        Some((Face::Right, !shift))
    } else if key == 'L' {
        Some((Face::Left, !shift))
    } else if key == 'U' {
        Some((Face::Up, !shift))
    } else if key == 'D' {
        Some((Face::Down, !shift))
    } else if key == 'F' {
        Some((Face::Front, !shift))
    } else if key == 'B' {
        Some((Face::Back, !shift))
    } else {
        None
    }
}

/// The layer turn asked for by the letter key `key` (upper case), if any.
pub fn turn_for_key(key: char, shift: bool) -> (r: Option<(Face, bool)>)
    ensures
        r == key_turn(key, shift),
{
    match key {
        'R' => Some((Face::Right, !shift)),
        'L' => Some((Face::Left, !shift)),
        'U' => Some((Face::Up, !shift)),
        'D' => Some((Face::Down, !shift)),
        'F' => Some((Face::Front, !shift)),
        'B' => Some((Face::Back, !shift)),
        _ => None,
    }
}

} // verus!

verus! {

/// The six face keys: each asks for a clockwise turn of its face, and with shift held
/// for the counterclockwise turn of the same face; shift changes only the direction,
/// and no other key asks for a turn.
pub proof fn lemma_shift_reverses_turn(key: char)
    ensures
        key_turn(key, false) is Some <==> key_turn(key, true) is Some,
        key_turn(key, false) matches Some((face, clockwise)) ==> clockwise && key_turn(key, true) == Some(
            (face, false),
        ),
        key == 'R' ==> key_turn(key, false) == Some((Face::Right, true)),
        key == 'L' ==> key_turn(key, false) == Some((Face::Left, true)),
        key == 'U' ==> key_turn(key, false) == Some((Face::Up, true)),
        key == 'D' ==> key_turn(key, false) == Some((Face::Down, true)),
        key == 'F' ==> key_turn(key, false) == Some((Face::Front, true)),
        key == 'B' ==> key_turn(key, false) == Some((Face::Back, true)),
{
}

} // verus!
