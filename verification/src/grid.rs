//! Grid addressing: conversion between continuous world positions and the
//! integer coordinates of the tile grid.
//!
//! A tile of size `s` with grid coordinate `c` covers the half-open world
//! interval `[c * s, (c + 1) * s)` on each axis, so the coordinate covering a
//! world position is the floor of `position / tile_size`.

use vstd::prelude::*;

verus! {

/// The grid coordinate covering world position `pos` on one axis:
/// `floor(pos / tile_size)`. Verus's integer division rounds toward negative
/// infinity for a positive divisor, so the contract is exactly that quotient.
pub fn tile_coord(pos: i64, tile_size: i64) -> (c: i64)
    requires
        tile_size > 0,
    ensures
        c == pos as int / tile_size as int,
{
    proof {
        lemma_floor_quotient_fits(pos as int, tile_size as int);
    }
    match pos.checked_div_euclid(tile_size) {
        Some(c) => c,
        None => 0,
    }
}

/// The grid coordinate covering a two-dimensional world position.
pub fn world_to_tile(x: i64, y: i64, tile_size: i64) -> (c: (i64, i64))
    requires
        tile_size > 0,
    ensures
        c.0 == x as int / tile_size as int,
        c.1 == y as int / tile_size as int,
{
    (tile_coord(x, tile_size), tile_coord(y, tile_size))
}

/// For a positive divisor the floor quotient of an `i64` value stays within
/// the `i64` range, and its magnitude never exceeds the dividend's.
proof fn lemma_floor_quotient_fits(pos: int, tile_size: int)
    requires
        tile_size > 0,
        i64::MIN <= pos <= i64::MAX,
    ensures
        i64::MIN <= pos / tile_size <= i64::MAX,
{
    vstd::arithmetic::div_mod::lemma_div_is_ordered(i64::MIN as int, pos, tile_size);
    vstd::arithmetic::div_mod::lemma_div_is_ordered(pos, i64::MAX as int, tile_size);
    vstd::arithmetic::div_mod::lemma_div_nonincreasing(i64::MAX as int, tile_size);
    lemma_floor_quotient_lower(i64::MIN as int, tile_size);
}

/// A negative value divided by a positive one is no smaller than the value.
proof fn lemma_floor_quotient_lower(pos: int, tile_size: int)
    requires
        tile_size > 0,
        pos <= 0,
    ensures
        pos / tile_size >= pos,
{
    if tile_size == 1 {
        vstd::arithmetic::div_mod::lemma_div_by_self(1);
        assert(pos / 1 == pos) by {
            vstd::arithmetic::div_mod::lemma_div_basics(pos);
        }
    } else {
        assert(pos / tile_size >= pos) by (nonlinear_arith)
            requires
                tile_size > 1,
                pos <= 0,
        ;
    }
}

} // verus!
