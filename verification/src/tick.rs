//! The fixed-interval tick clock shared by client and server.
//!
//! Ticks are 16-bit counters that wrap on overflow, so ordering between two
//! ticks uses the standard sequence-number convention: `a` is after `b` iff
//! the difference `a - b`, computed in the counter's width and read as a
//! signed value, is positive. Comparisons are only meaningful for ticks
//! within half the value range of each other.

use vstd::prelude::*;
use vstd::arithmetic::div_mod::{
    lemma_add_mod_noop, lemma_fundamental_div_mod, lemma_mod_multiples_vanish, lemma_mod_self_0,
    lemma_small_mod,
};

verus! {

/// Wrap-aware distance from `from` forward to `to`, in `[0, 0xffff]`.
pub open spec fn tick_distance(from: u16, to: u16) -> int {
    (to - from) % 0x10000
}

/// `a` is after `b`: the wrapped difference `a - b` lies in `[1, 0x7fff]`.
pub open spec fn seq_after(a: u16, b: u16) -> bool {
    1 <= tick_distance(b, a) < 0x8000
}

/// The wrapped difference `a - b` read as a 16-bit two's-complement value,
/// in `[-0x8000, 0x7fff]`.
pub open spec fn signed_tick_delta(a: u16, b: u16) -> int {
    (a - b + 0x8000) % 0x10000 - 0x8000
}

/// Wrap-aware ordering of two ticks, as used for every tick comparison in
/// the crate: true iff `a` lies strictly ahead of `b` by less than half the
/// tick range.
pub fn sequence_greater_than(a: u16, b: u16) -> (r: bool)
    ensures
        r == seq_after(a, b),
{
    let d: u32 = (a as u32 + 0x10000 - b as u32) % 0x10000;
    proof {
        lemma_shift_mod(a as int - b as int);
    }
    1 <= d && d < 0x8000
}

/// Wrap-aware forward distance from `from` to `to`, as an exec value.
pub fn tick_distance_exec(from: u16, to: u16) -> (d: u16)
    ensures
        d == tick_distance(from, to),
{
    let d: u32 = (to as u32 + 0x10000 - from as u32) % 0x10000;
    proof {
        lemma_shift_mod(to as int - from as int);
    }
    d as u16
}

/// The tick that follows `t`, wrapping at the end of the range.
pub fn tick_successor(t: u16) -> (s: u16)
    ensures
        s == tick_add(t, 1),
{
    proof {
        if t == 0xffff {
            lemma_mod_self_0(0x10000);
        } else {
            lemma_small_mod((t + 1) as nat, 0x10000 as nat);
        }
    }
    if t == 0xffff {
        0
    } else {
        t + 1
    }
}

/// The tick `i` steps after `t` (wrapping); `i` may be any integer.
pub open spec fn tick_add(t: u16, i: int) -> u16 {
    (((t + i) % 0x10000 + 0x10000) % 0x10000) as u16
}

/// Stepping the clock twice composes: adding `a` then `b` ticks lands on
/// the same tick as adding `a + b` at once.
pub proof fn lemma_tick_add_compose(t: u16, a: int, b: int)
    ensures
        tick_add(tick_add(t, a), b) == tick_add(t, a + b),
{
    let m = 0x10000 as int;
    lemma_mod_mod_shift(t + a, m);
    lemma_mod_mod_shift(t + a + b, m);
    let r = (t + a) % m;
    assert(tick_add(t, a) == r);
    lemma_mod_mod_shift(r + b, m);
    lemma_fundamental_div_mod(t + a, m);
    let q = (t + a) / m;
    assert(r + b == m * (-q) + (t + a + b)) by (nonlinear_arith)
        requires
            t + a == m * q + r,
    ;
    lemma_mod_multiples_vanish(-q, t + a + b, m);
}

/// The clock lands `i` ticks ahead: the wrapped distance from `t` to
/// `tick_add(t, i)` is `i` itself whenever `i` is less than one whole
/// revolution.
pub proof fn lemma_tick_add_dist(t: u16, i: int)
    requires
        0 <= i < 0x10000,
    ensures
        tick_distance(t, tick_add(t, i)) == i,
{
    let m = 0x10000 as int;
    lemma_mod_mod_shift(t + i, m);
    let x = (t + i) % m;
    assert(tick_add(t, i) == x);
    lemma_fundamental_div_mod(t + i, m);
    let q = (t + i) / m;
    assert(x - t == m * (-q) + i) by (nonlinear_arith)
        requires
            t + i == m * q + x,
    ;
    lemma_mod_multiples_vanish(-q, i, m);
    lemma_small_mod(i as nat, m as nat);
}

/// `(x % m + m) % m == x % m` for the tick modulus: the inner result is
/// already in range.
proof fn lemma_mod_mod_shift(x: int, m: int)
    requires
        m == 0x10000,
    ensures
        (x % m + m) % m == x % m,
        0 <= x % m < m,
{
    lemma_shift_mod_general(x % m, m);
}

/// Shifting by one modulus does not change the remainder.
proof fn lemma_shift_mod_general(x: int, m: int)
    requires
        m == 0x10000,
    ensures
        (x + m) % m == x % m,
{
    lemma_add_mod_noop(x, m, m);
    lemma_mod_self_0(m);
    lemma_shift_small(x % m, m);
}

proof fn lemma_shift_small(r: int, m: int)
    requires
        m == 0x10000,
        0 <= r < m,
    ensures
        (r + 0) % m == r,
        r % m == r,
{
    lemma_small_mod(r as nat, m as nat);
}

/// Shifting the dividend by exactly one tick modulus leaves the remainder
/// unchanged; bridges the exec computation `(x + 0x10000) % 0x10000` done
/// in unsigned arithmetic to the spec-level `x % 0x10000`.
pub proof fn lemma_shift_mod(x: int)
    ensures
        (x + 0x10000) % 0x10000 == x % 0x10000,
        0 <= x % 0x10000 < 0x10000,
{
    lemma_shift_mod_general(x, 0x10000);
}

/// Wrap-aware ordering matches the sign of the signed wrapped difference:
/// `a` is after `b` exactly when `a - b`, computed in the tick's width and
/// read as a signed 16-bit value, is positive.
pub proof fn lemma_after_matches_signed_delta(a: u16, b: u16)
    ensures
        seq_after(a, b) <==> signed_tick_delta(a, b) > 0,
{
    let m = 0x10000 as int;
    let d = (a - b) % m;
    lemma_shift_mod(a - b);
    assert(0 <= d < m);
    lemma_add_mod_noop(a - b, 0x8000, m);
    // (a - b + 0x8000) % m == (d + 0x8000) % m
    lemma_shift_small(d, m);
    if d < 0x8000 {
        lemma_small_mod((d + 0x8000) as nat, m as nat);
        assert(signed_tick_delta(a, b) == d);
    } else {
        lemma_shift_mod_general(d + 0x8000 - m, m);
        lemma_small_mod((d + 0x8000 - m) as nat, m as nat);
        assert(signed_tick_delta(a, b) == d - m);
    }
}

/// A tick is never after itself, and of two distinct ticks within half a
/// range of each other, exactly one is after the other.
pub proof fn lemma_after_antisymmetric(a: u16, b: u16)
    ensures
        !(seq_after(a, b) && seq_after(b, a)),
        seq_after(a, a) == false,
{
    let m = 0x10000 as int;
    lemma_shift_mod(a - b);
    lemma_shift_mod(b - a);
    if a != b {
        lemma_mod_opposite(a as int, b as int);
    } else {
        lemma_shift_small(0, m);
    }
}

/// Distances measured from a common base tick subtract: when `x` is no
/// further from `b` than `y` is, the distance from `x` to `y` is the
/// difference of their offsets.
pub proof fn lemma_dist_sub(b: u16, x: u16, y: u16)
    requires
        tick_distance(b, x) <= tick_distance(b, y),
    ensures
        tick_distance(x, y) == tick_distance(b, y) - tick_distance(b, x),
{
    let m = 0x10000 as int;
    let ox = (x - b) % m;
    let oy = (y - b) % m;
    lemma_shift_mod(x - b);
    lemma_shift_mod(y - b);
    lemma_fundamental_div_mod(x - b, m);
    lemma_fundamental_div_mod(y - b, m);
    let qx = (x - b) / m;
    let qy = (y - b) / m;
    assert(y - x == m * (qy - qx) + (oy - ox)) by (nonlinear_arith)
        requires
            x - b == m * qx + ox,
            y - b == m * qy + oy,
    ;
    lemma_mod_multiples_vanish(qy - qx, oy - ox, m);
    lemma_small_mod((oy - ox) as nat, m as nat);
}

/// Equal offsets from a common base mean equal ticks.
pub proof fn lemma_dist_eq(b: u16, x: u16, y: u16)
    requires
        tick_distance(b, x) == tick_distance(b, y),
    ensures
        x == y,
{
    lemma_dist_sub(b, x, y);
    let m = 0x10000 as int;
    lemma_fundamental_div_mod(y - x, m);
    let q = (y - x) / m;
    assert(y - x == m * q);
    assert(-m < y - x < m);
    assert(q == 0) by (nonlinear_arith)
        requires
            y - x == m * q,
            -m < y - x < m,
    ;
}

/// Wrapped distances add along a chain as long as the sum stays under one
/// whole revolution.
pub proof fn lemma_dist_add(a: u16, b: u16, c: u16)
    requires
        tick_distance(a, b) + tick_distance(b, c) < 0x10000,
    ensures
        tick_distance(a, c) == tick_distance(a, b) + tick_distance(b, c),
{
    let m = 0x10000 as int;
    let o1 = (b - a) % m;
    let o2 = (c - b) % m;
    lemma_shift_mod(b - a);
    lemma_shift_mod(c - b);
    lemma_fundamental_div_mod(b - a, m);
    lemma_fundamental_div_mod(c - b, m);
    let q1 = (b - a) / m;
    let q2 = (c - b) / m;
    assert(c - a == m * (q1 + q2) + (o1 + o2)) by (nonlinear_arith)
        requires
            b - a == m * q1 + o1,
            c - b == m * q2 + o2,
    ;
    lemma_mod_multiples_vanish(q1 + q2, o1 + o2, m);
    lemma_small_mod((o1 + o2) as nat, m as nat);
}

/// Two ticks with distinct offsets from a common base, both within half
/// the range, compare by their offsets.
pub proof fn lemma_compare_offsets(b: u16, x: u16, y: u16)
    requires
        tick_distance(b, x) <= 0x7fff,
        tick_distance(b, y) <= 0x7fff,
        tick_distance(b, x) != tick_distance(b, y),
    ensures
        seq_after(y, x) <==> tick_distance(b, x) < tick_distance(b, y),
        x != y,
{
    if tick_distance(b, x) < tick_distance(b, y) {
        lemma_dist_sub(b, x, y);
    } else {
        lemma_dist_sub(b, y, x);
        lemma_after_antisymmetric(y, x);
    }
}

/// The forward and backward wrapped distances of two distinct ticks sum to
/// the modulus.
proof fn lemma_mod_opposite(a: int, b: int)
    requires
        a != b,
        0 <= a < 0x10000,
        0 <= b < 0x10000,
    ensures
        (a - b) % 0x10000 + (b - a) % 0x10000 == 0x10000,
{
    let m = 0x10000 as int;
    if a > b {
        lemma_shift_small(a - b, m);
        lemma_shift_mod_general(b - a, m);
        lemma_shift_small(b - a + m, m);
    } else {
        lemma_shift_small(b - a, m);
        lemma_shift_mod_general(a - b, m);
        lemma_shift_small(a - b + m, m);
    }
}

} // verus!
