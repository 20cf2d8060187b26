use vstd::prelude::*;

verus! {

/// The sprite that follows sprite `current` in an animation of `count`
/// sprites: the next one, and the first one behind the last.
pub open spec fn following_sprite(current: usize, count: usize) -> usize {
    if count > 0 && current < count - 1 {
        (current + 1) as usize
    } else {
        0
    }
}

/// The sprite to show after sprite `current` of an animation of `count`
/// sprites.
pub fn next_sprite_number(current: usize, count: usize) -> (next: usize)
    ensures
        next == following_sprite(current, count),
        count > 0 ==> next < count,
{
    if count > 0 && current < count - 1 {
        current + 1
    } else {
        0
    }
}

} // verus!
