use vstd::prelude::*;

verus! {

/// Triangle-wave approximation of sine, scaled so that the peak is 1024.
pub open spec fn sinish_spec(deg: int) -> int {
    let d = deg % 360;
    let sign: int = if d >= 180 { -1 } else { 1 };
    let local = if d >= 180 { d - 180 } else { d };
    let triangle = if local <= 90 { local } else { 180 - local };
    sign * ((triangle * 1024) / 90)
}

/// The height of the triangle wave at `local` degrees into a half period, scaled to 1024.
pub open spec fn tri_height(local: int) -> int {
    let t = if local <= 90 { local } else { 180 - local };
    (t * 1024) / 90
}

proof fn lemma_sinish_unfold(deg: int)
    ensures
        ({
            let d = deg % 360;
            &&& 0 <= d < 360
            &&& d < 180 ==> sinish_spec(deg) == tri_height(d)
            &&& d >= 180 ==> sinish_spec(deg) == -tri_height(d - 180)
        }),
{
    let d = deg % 360;
    if d >= 180 {
        let h = tri_height(d - 180);
        assert(sinish_spec(deg) == (-1) * h);
    } else {
        let h = tri_height(d);
        assert(sinish_spec(deg) == 1 * h);
    }
}

proof fn lemma_tri_height(x: int)
    requires
        0 <= x <= 180,
    ensures
        0 <= tri_height(x) <= 1024,
        tri_height(180 - x) == tri_height(x),
        tri_height(0) == 0 && tri_height(90) == 1024 && tri_height(180) == 0,
{
    let t = if x <= 90 { x } else { 180 - x };
    assert(0 <= t * 1024 / 90 <= 1024) by (nonlinear_arith)
        requires
            0 <= t <= 90,
    ;
}

/// The triangle sine stays within ±1024.
pub proof fn lemma_sinish_range(deg: int)
    ensures
        -1024 <= sinish_spec(deg) <= 1024,
{
    lemma_sinish_unfold(deg);
    let d = deg % 360;
    if d < 180 {
        lemma_tri_height(d);
    } else {
        lemma_tri_height(d - 180);
    }
}

proof fn lemma_sinish_period(deg: int)
    ensures
        sinish_spec(deg) == sinish_spec(deg % 360),
        sinish_spec(deg + 360) == sinish_spec(deg),
{
    let d = deg % 360;
    assert((deg + 360) % 360 == d);
    assert(d % 360 == d);
    lemma_sinish_unfold(deg);
    lemma_sinish_unfold(d);
    lemma_sinish_unfold(deg + 360);
}

proof fn lemma_sinish_odd(deg: int)
    ensures
        sinish_spec(-deg) == -sinish_spec(deg),
{
    let d = deg % 360;
    let e = (-deg) % 360;
    assert(e == (if d == 0 { 0 } else { 360 - d }));
    lemma_sinish_unfold(deg);
    lemma_sinish_unfold(-deg);
    if d == 0 {
        lemma_tri_height(0);
    } else if d < 180 {
        lemma_tri_height(d);
    } else if d == 180 {
        lemma_tri_height(0);
    } else {
        lemma_tri_height(d - 180);
    }
}

proof fn lemma_sinish_values()
    ensures
        sinish_spec(0) == 0 && sinish_spec(90) == 1024 && sinish_spec(180) == 0 && sinish_spec(270) == -1024,
{
    lemma_sinish_unfold(0);
    lemma_sinish_unfold(90);
    lemma_sinish_unfold(180);
    lemma_sinish_unfold(270);
    lemma_tri_height(0);
    lemma_tri_height(90);
}

/// The triangle sine is periodic with period 360 and odd, and takes its peaks and zeros where
/// the sine does.
pub proof fn lemma_sinish_period_odd(deg: int)
    ensures
        sinish_spec(deg) == sinish_spec(deg % 360),
        sinish_spec(deg + 360) == sinish_spec(deg),
        sinish_spec(-deg) == -sinish_spec(deg),
        sinish_spec(0) == 0 && sinish_spec(90) == 1024 && sinish_spec(180) == 0 && sinish_spec(270) == -1024,
{
    lemma_sinish_period(deg);
    lemma_sinish_odd(deg);
    lemma_sinish_values();
}

/// Integer-approximation sine. Returns a value in -1024..=1024; input is in degrees.
pub fn sinish(deg: i32) -> (r: isize)
    ensures
        r == sinish_spec(deg as int),
        -1024 <= r <= 1024,
{
    let mut d = deg % 360;
    if d < 0 {
        d += 360;
    }
    let sign: isize = if d >= 180 { -1 } else { 1 };
    let local = if d >= 180 { d - 180 } else { d };
    let triangle = if local <= 90 { local } else { 180 - local };
    sign * ((triangle as isize * 1024) / 90)
}


/// Integer-approximation cosine: the sine of `deg + 90`.
pub fn cosish(deg: i32) -> (r: isize)
    requires
        deg <= i32::MAX - 90,
    ensures
        r == sinish_spec(deg + 90),
        -1024 <= r <= 1024,
{
    sinish(deg + 90)
}

/// Hint to the processor that the caller is busy-waiting (`core::hint::spin_loop`).
#[verifier::external_body]
fn spin_loop_hint() {
    core::hint::spin_loop()
}

/// Busy-wait for `cycles` iterations.
pub fn delay(cycles: usize) {
    let mut i: usize = 0;
    while i < cycles
        invariant
            i <= cycles,
        decreases cycles - i,
    {
        spin_loop_hint();
        i += 1;
    }
}

/// The square of an integer.
pub open spec fn sq(t: int) -> int {
    t * t
}

/// `(x + n / x) / 2` is at least every `t` whose square is at most `n`.
proof fn lemma_newton_step(n: int, x: int, t: int)
    requires
        x > 0,
        n >= 0,
        t >= 0,
        t * t <= n,
    ensures
        t <= (x + n / x) / 2,
{
    let q = n / x;
    assert(n < x * (q + 1)) by (nonlinear_arith)
        requires
            x > 0,
            q == n / x,
    ;
    assert((x + q + 1) * (x + q + 1) >= 4 * x * (q + 1)) by (nonlinear_arith);
    assert(x + q + 1 > 2 * t) by (nonlinear_arith)
        requires
            (x + q + 1) * (x + q + 1) >= 4 * x * (q + 1),
            x * (q + 1) > n,
            n >= t * t,
            t >= 0,
            x > 0,
            q >= 0,
    ;
}

/// `x + n / x <= n + 1` for `1 <= x <= n`.
proof fn lemma_newton_bound(n: int, x: int)
    requires
        1 <= x <= n,
    ensures
        x + n / x <= n + 1,
        n / x >= 1,
{
    let q = n / x;
    assert(x * q <= n && q >= 1) by (nonlinear_arith)
        requires
            1 <= x <= n,
            q == n / x,
    ;
    assert(x + q <= x * q + 1) by (nonlinear_arith)
        requires
            x >= 1,
            q >= 1,
    ;
}

/// `(a + b) / 2` without forming the sum.
fn half_sum(a: usize, b: usize) -> (r: usize)
    ensures
        r == (a + b) / 2,
{
    a / 2 + b / 2 + (a % 2 + b % 2) / 2
}

/// Integer square root (floor), by Newton's iteration.
pub fn isqrt(n: usize) -> (r: usize)
    ensures
        r * r <= n < (r + 1) * (r + 1),
{
    if n == 0 {
        return 0;
    }
    let mut x = n;
    let mut y = half_sum(x, 1);
    proof {
        assert forall|t: int| t >= 0 && #[trigger] sq(t) <= n implies t <= x by {
            assert(t * t >= t) by (nonlinear_arith)
                requires
                    t >= 0,
            ;
            if t == 0 {
            } else {
                assert(t * t >= t) by (nonlinear_arith)
                    requires
                        t >= 1,
                ;
            }
        }
        lemma_newton_bound(n as int, x as int);
        assert(n / n == 1) by (nonlinear_arith)
            requires
                n > 0,
        ;
    }
    while y < x
        invariant
            0 < n,
            1 <= x <= n,
            y == (x + n / x) / 2,
            forall|t: int| t >= 0 && #[trigger] sq(t) <= n ==> t <= x,
        decreases x,
    {
        let ghost xo = x;
        x = y;
        proof {
            assert forall|t: int| t >= 0 && #[trigger] sq(t) <= n implies t <= x by {
                lemma_newton_step(n as int, xo as int, t);
            }
            lemma_newton_step(n as int, xo as int, 1);
            lemma_newton_bound(n as int, x as int);
        }
        y = half_sum(x, n / x);
    }
    proof {
        if x * x > n {
            assert(n / x < x) by (nonlinear_arith)
                requires
                    x * x > n,
                    x > 0,
                    n >= 0,
            ;
        }
        if (x + 1) * (x + 1) <= n {
            assert(sq(x + 1) <= n);
        }
    }
    x
}

} // verus!
