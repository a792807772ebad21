//! The shape of an encoded observation: so many channels over the tile types of
//! a game.
use vstd::prelude::*;

verus! {

/// The number of channels of an observation in a game of `num_players`.
pub open spec fn channel_count(num_players: u8) -> nat {
    if num_players == 3 {
        37
    } else {
        39
    }
}

/// The number of tile types in a game of `num_players`.
pub open spec fn type_count(num_players: u8) -> nat {
    if num_players == 3 {
        27
    } else {
        34
    }
}

/// The number of values of an observation in a game of `num_players`.
pub open spec fn value_count(num_players: u8) -> nat {
    channel_count(num_players) * type_count(num_players)
}

/// The number of channels of an observation.
pub fn channels(num_players: u8) -> (n: usize)
    ensures
        n == channel_count(num_players),
{
    if num_players == 3 {
        37
    } else {
        39
    }
}

/// The number of tile types.
pub fn tile_dim(num_players: u8) -> (n: usize)
    ensures
        n == type_count(num_players),
{
    if num_players == 3 {
        27
    } else {
        34
    }
}

/// The number of values of an observation.
pub fn obs_len(num_players: u8) -> (n: usize)
    ensures
        n == value_count(num_players),
{
    let c = channels(num_players);
    let t = tile_dim(num_players);
    assert(c * t <= 1326) by (nonlinear_arith)
        requires
            c <= 39,
            t <= 34,
    ;
    c * t
}

/// Three players have a shape of their own, and every other number that of four:
/// thirty-seven channels over twenty-seven tile types, and thirty-nine over
/// thirty-four.
pub proof fn law_shapes(num_players: u8)
    ensures
        num_players == 3 ==> channel_count(num_players) == 37 && type_count(num_players) == 27
            && value_count(num_players) == 999,
        num_players != 3 ==> channel_count(num_players) == 39 && type_count(num_players) == 34
            && value_count(num_players) == 1326,
{
    if num_players == 3 {
        assert(value_count(num_players) == 37 * 27);
    } else {
        assert(value_count(num_players) == 39 * 34);
    }
}

} // verus!
