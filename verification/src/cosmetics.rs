use vstd::prelude::*;

verus! {

/// Decorative head style of the displayed snake; no bearing on move logic.
#[derive(Clone, Copy, Debug, PartialEq, Eq, Structural)]
pub enum SnakeHead {
    Beluga,
    Bendr,
    Dead,
    Evil,
    Fang,
    Pixel,
    Regular,
    Safe,
    SandWorm,
    Shades,
    Silly,
    Smile,
    Tongue,
}

/// Decorative tail style of the displayed snake; no bearing on move logic.
#[derive(Clone, Copy, Debug, PartialEq, Eq, Structural)]
pub enum SnakeTail {
    BlockBum,
    Bolt,
    Curled,
    FatRattle,
    Freckled,
    Hook,
    Pixel,
    Regular,
    RoundBum,
    Sharp,
    Skinny,
    SmallRattle,
}

/// The head style assigned to a drawn number: rolls 0 through 11 each pick
/// one style in order, anything else the last one.
pub open spec fn head_choice(roll: int) -> SnakeHead {
    if roll == 0 {
        SnakeHead::Beluga
    } else if roll == 1 {
        SnakeHead::Bendr
    } else if roll == 2 {
        SnakeHead::Dead
    } else if roll == 3 {
        SnakeHead::Evil
    } else if roll == 4 {
        SnakeHead::Fang
    } else if roll == 5 {
        SnakeHead::Pixel
    } else if roll == 6 {
        SnakeHead::Regular
    } else if roll == 7 {
        SnakeHead::Safe
    } else if roll == 8 {
        SnakeHead::SandWorm
    } else if roll == 9 {
        SnakeHead::Shades
    } else if roll == 10 {
        SnakeHead::Silly
    } else if roll == 11 {
        SnakeHead::Smile
    } else {
        SnakeHead::Tongue
    }
}

/// The tail style assigned to a drawn number: rolls 0 through 10 each pick
/// one style in order, anything else the last one.
pub open spec fn tail_choice(roll: int) -> SnakeTail {
    if roll == 0 {
        SnakeTail::BlockBum
    } else if roll == 1 {
        SnakeTail::Bolt
    } else if roll == 2 {
        SnakeTail::Curled
    } else if roll == 3 {
        SnakeTail::FatRattle
    } else if roll == 4 {
        SnakeTail::Freckled
    } else if roll == 5 {
        SnakeTail::Hook
    } else if roll == 6 {
        SnakeTail::Pixel
    } else if roll == 7 {
        SnakeTail::Regular
    } else if roll == 8 {
        SnakeTail::RoundBum
    } else if roll == 9 {
        SnakeTail::Sharp
    } else if roll == 10 {
        SnakeTail::Skinny
    } else {
        SnakeTail::SmallRattle
    }
}

/// The head style for a drawn number; the draw itself stays with the caller.
pub fn pick_head(roll: u32) -> (r: SnakeHead)
    ensures
        r == head_choice(roll as int),
{
    match roll {
        0 => SnakeHead::Beluga,
        1 => SnakeHead::Bendr,
        2 => SnakeHead::Dead,
        3 => SnakeHead::Evil,
        4 => SnakeHead::Fang,
        5 => SnakeHead::Pixel,
        6 => SnakeHead::Regular,
        7 => SnakeHead::Safe,
        8 => SnakeHead::SandWorm,
        9 => SnakeHead::Shades,
        10 => SnakeHead::Silly,
        11 => SnakeHead::Smile,
        _ => SnakeHead::Tongue,
    }
}

/// The tail style for a drawn number; the draw itself stays with the caller.
pub fn pick_tail(roll: u32) -> (r: SnakeTail)
    ensures
        r == tail_choice(roll as int),
{
    match roll {
        0 => SnakeTail::BlockBum,
        1 => SnakeTail::Bolt,
        2 => SnakeTail::Curled,
        3 => SnakeTail::FatRattle,
        4 => SnakeTail::Freckled,
        5 => SnakeTail::Hook,
        6 => SnakeTail::Pixel,
        7 => SnakeTail::Regular,
        8 => SnakeTail::RoundBum,
        9 => SnakeTail::Sharp,
        10 => SnakeTail::Skinny,
        _ => SnakeTail::SmallRattle,
    }
}

} // verus!
