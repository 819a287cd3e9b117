use vstd::prelude::*;
use vstd::arithmetic::div_mod::{lemma_div_is_ordered, lemma_div_multiples_vanish, lemma_mod_decreases};
use rand::rngs::StdRng;
use crate::grid::{is_rect, GenError};
use crate::random::draw_below;

verus! {

/// Fixed-point scale of noise values and blend fractions: `v` stands for
/// `v / UNIT`, so `UNIT` is 1.0.
pub const UNIT: u32 = 1_000_000;

/// Linear interpolation between `x0` and `x1` at fraction `alpha / UNIT`,
/// rounded down.
pub open spec fn lerp(x0: int, x1: int, alpha: int) -> int {
    (x0 * (UNIT - alpha) + x1 * alpha) / (UNIT as int)
}

/// `x0 * (1 - alpha) + x1 * alpha`, with `alpha` a fraction of `UNIT`.
pub fn interpolate(x0: u32, x1: u32, alpha: u32) -> (r: u32)
    requires
        alpha <= UNIT,
    ensures
        r == lerp(x0 as int, x1 as int, alpha as int),
        alpha == 0 ==> r == x0,
        alpha == UNIT ==> r == x1,
        r <= x0 || r <= x1,
{
    let a = alpha as u64;
    let u = UNIT as u64;
    proof {
        let m: int = if x0 >= x1 { x0 as int } else { x1 as int };
        assert(x0 * (u - a) <= m * (u - a)) by (nonlinear_arith)
            requires x0 <= m, a <= u;
        assert(x1 * a <= m * a) by (nonlinear_arith)
            requires x1 <= m, 0 <= a;
        assert(x0 * (u - a) + x1 * a <= m * u) by (nonlinear_arith)
            requires x0 * (u - a) <= m * (u - a), x1 * a <= m * a;
        lemma_div_is_ordered(x0 * (u - a) + x1 * a, m * u, u as int);
        lemma_div_multiples_vanish(m, u as int);
        assert(m * u <= 0xffff_ffff * 1_000_000) by (nonlinear_arith)
            requires m <= 0xffff_ffff, u == 1_000_000;
        assert(x0 * (u - a) + x1 * a >= 0) by (nonlinear_arith)
            requires 0 <= x0, 0 <= x1, a <= u;
        if a == 0 {
            assert(x0 * (u - a) + x1 * a == u * x0) by (nonlinear_arith)
                requires a == 0;
            lemma_div_multiples_vanish(x0 as int, u as int);
        }
        if a == u {
            assert(x0 * (u - a) + x1 * a == u * x1) by (nonlinear_arith)
                requires a == u;
            lemma_div_multiples_vanish(x1 as int, u as int);
        }
    }
    let sum: u64 = x0 as u64 * (u - a) + x1 as u64 * a;
    (sum / u) as u32
}

/// The sampling period of an octave: two to the power `octave`.
pub open spec fn period(octave: nat) -> nat
    decreases octave,
{
    if octave == 0 {
        1
    } else {
        2 * period((octave - 1) as nat)
    }
}

/// The sample coordinate at or below `c` on the lattice of step `p`.
pub open spec fn sample0(c: int, p: int) -> int {
    c - c % p
}

/// The next sample coordinate after `sample0`, wrapped around `dim`.
pub open spec fn sample1(c: int, p: int, dim: int) -> int {
    (sample0(c, p) + p) % dim
}

/// How far `c` lies from its lower sample, as a fraction of `UNIT`.
pub open spec fn blend(c: int, p: int) -> int {
    (c - sample0(c, p)) * UNIT / p
}

/// Every value of `f` lies in [0, 1).
pub open spec fn below_unit(f: Seq<Vec<u32>>) -> bool {
    forall|x: int, y: int| 0 <= x < f.len() && 0 <= y < f[x]@.len() ==> #[trigger] f[x]@[y] < UNIT
}

/// The largest value that `f` holds, as far as `below_unit` tells.
pub open spec fn value_cap(f: Seq<Vec<u32>>) -> int {
    if below_unit(f) {
        UNIT - 1
    } else {
        0xffff_ffff
    }
}

/// The value at `f[x][y]`.
pub open spec fn at(f: Seq<Vec<u32>>, x: int, y: int) -> int {
    f[x]@[y] as int
}

/// The field `f`, sampled every `period(octave)` cells on both axes and
/// wrapped around its edges, at `(x, y)`: a bilinear blend of the four
/// surrounding samples.
pub open spec fn smooth_value(f: Seq<Vec<u32>>, octave: nat, x: int, y: int) -> int {
    let p = period(octave) as int;
    let x0 = sample0(x, p);
    let x1 = sample1(x, p, f.len() as int);
    let y0 = sample0(y, p);
    let y1 = sample1(y, p, f[0]@.len() as int);
    let hb = blend(x, p);
    lerp(
        lerp(at(f, x0, y0), at(f, x1, y0), hb),
        lerp(at(f, x0, y1), at(f, x1, y1), hb),
        blend(y, p),
    )
}

proof fn lemma_period_pos(o: nat)
    ensures
        period(o) >= 1,
    decreases o,
{
    if o > 0 {
        lemma_period_pos((o - 1) as nat);
    }
}

/// Two to the power `octave`.
fn period_of(octave: u32) -> (p: u64)
    requires
        octave < 64,
    ensures
        p == period(octave as nat),
{
    let mut p: u64 = 1;
    let mut k: u32 = 0;
    proof {
        reveal_with_fuel(period, 64);
    }
    while k < octave
        invariant
            k <= octave < 64,
            p == period(k as nat),
            p * period((63 - k) as nat) == 0x8000_0000_0000_0000,
        decreases octave - k,
    {
        proof {
            let rest = period((62 - k) as nat);
            lemma_period_pos((62 - k) as nat);
            assert(period((63 - k) as nat) == 2 * rest);
            assert(p * (2 * rest) == (2 * p) * rest) by (nonlinear_arith);
            assert(2 * p <= (2 * p) * rest) by (nonlinear_arith)
                requires rest >= 1, p >= 0;
        }
        p = p * 2;
        k = k + 1;
    }
    p
}

/// The lower sample, its wrapped successor and the blend fraction of
/// coordinate `c` on an axis of length `dim` sampled with step `p`.
fn sample_axis(c: usize, p: u64, dim: usize) -> (r: (usize, usize, u32))
    requires
        c < dim,
        p >= 1,
    ensures
        r.0 == sample0(c as int, p as int),
        r.1 == sample1(c as int, p as int, dim as int),
        r.2 == blend(c as int, p as int),
        r.0 < dim,
        r.1 < dim,
        r.2 <= UNIT,
{
    let off: u64 = (c as u64) % p;
    proof {
        lemma_mod_decreases(c as nat, p as nat);
    }
    let s0: usize = c - off as usize;
    let s1: usize = ((s0 as u128 + p as u128) % dim as u128) as usize;
    let prod: u128 = off as u128 * UNIT as u128;
    proof {
        assert(off < p);
        assert(prod <= p * UNIT) by (nonlinear_arith)
            requires prod == off * UNIT, off < p;
        lemma_div_is_ordered(prod as int, p * UNIT, p as int);
        lemma_div_multiples_vanish(UNIT as int, p as int);
    }
    let fr: u32 = (prod / p as u128) as u32;
    (s0, s1, fr)
}

/// Smooths `base` at one octave: each cell becomes the bilinear blend of
/// the four samples, taken every `period(octave)` cells with wraparound,
/// that surround it. The result keeps the `base[x][y]` addressing.
pub fn smooth_noise(base: &Vec<Vec<u32>>, octave: u32) -> (r: Vec<Vec<u32>>)
    requires
        base.len() >= 1,
        is_rect(base@, base.len() as int, base@[0]@.len() as int),
        base@[0]@.len() >= 1,
        octave < 64,
    ensures
        is_rect(r@, base.len() as int, base@[0]@.len() as int),
        forall|x: int, y: int|
            0 <= x < base.len() && 0 <= y < base@[0]@.len() ==> #[trigger] r@[x]@[y]
                == smooth_value(base@, octave as nat, x, y),
        below_unit(base@) ==> below_unit(r@),
{
    let width = base.len();
    let height = base[0].len();
    let p = period_of(octave);
    proof {
        lemma_period_pos(octave as nat);
    }
    let mut out: Vec<Vec<u32>> = Vec::new();
    let mut x: usize = 0;
    while x < width
        invariant
            width == base.len(),
            height == base@[0]@.len(),
            is_rect(base@, width as int, height as int),
            p == period(octave as nat),
            p >= 1,
            x <= width,
            is_rect(out@, x as int, height as int),
            forall|i: int, j: int|
                0 <= i < x && 0 <= j < height ==> #[trigger] out@[i]@[j] == smooth_value(
                    base@,
                    octave as nat,
                    i,
                    j,
                ),
            below_unit(base@) ==> forall|i: int, j: int|
                0 <= i < x && 0 <= j < height ==> #[trigger] out@[i]@[j] < UNIT,
        decreases width - x,
    {
        let (x0, x1, hb) = sample_axis(x, p, width);
        let mut row: Vec<u32> = Vec::new();
        let mut y: usize = 0;
        while y < height
            invariant
                width == base.len(),
                height == base@[0]@.len(),
                is_rect(base@, width as int, height as int),
                p == period(octave as nat),
                p >= 1,
                x < width,
                x0 == sample0(x as int, p as int),
                x1 == sample1(x as int, p as int, width as int),
                hb == blend(x as int, p as int),
                x0 < width,
                x1 < width,
                hb <= UNIT,
                y <= height,
                row@.len() == y,
                forall|j: int|
                    0 <= j < y ==> #[trigger] row@[j] == smooth_value(base@, octave as nat, x as int, j),
                below_unit(base@) ==> forall|j: int| 0 <= j < y ==> #[trigger] row@[j] < UNIT,
            decreases height - y,
        {
            let (y0, y1, vb) = sample_axis(y, p, height);
            let top = interpolate(base[x0][y0], base[x1][y0], hb);
            let bottom = interpolate(base[x0][y1], base[x1][y1], hb);
            let v = interpolate(top, bottom, vb);
            row.push(v);
            y = y + 1;
        }
        out.push(row);
        x = x + 1;
    }
    out
}

/// Fixed-point scale of octave amplitudes: 1.0 is `AMP_ONE`.
pub const AMP_ONE: u64 = 1_000_000;

/// The amplitude after `k` accumulation steps: it starts at 1.0 and is
/// multiplied by the persistence 0.7, rounded down, before each step.
pub open spec fn amp(k: nat) -> nat
    decreases k,
{
    if k == 0 {
        AMP_ONE as nat
    } else {
        amp((k - 1) as nat) * 7 / 10
    }
}

/// The sum of the amplitudes of the first `k` steps.
pub open spec fn total_amp(k: nat) -> nat
    decreases k,
{
    if k == 0 {
        0
    } else {
        total_amp((k - 1) as nat) + amp(k)
    }
}

/// The weighted sum at `(x, y)` after `k` steps, where step `k` adds
/// octave `n - k` at amplitude `amp(k)`: octaves are taken from the coarsest
/// down.
pub open spec fn weighted(f: Seq<Vec<u32>>, n: nat, x: int, y: int, k: nat) -> int
    decreases k,
{
    if k == 0 {
        0
    } else {
        weighted(f, n, x, y, (k - 1) as nat) + amp(k) * smooth_value(f, (n - k) as nat, x, y)
    }
}

/// The composed noise of `n` octaves at `(x, y)`: the weighted sum over all
/// octaves divided by the sum of the weights.
pub open spec fn perlin_value(f: Seq<Vec<u32>>, n: nat, x: int, y: int) -> int {
    weighted(f, n, x, y, n) / (total_amp(n) as int)
}

proof fn lemma_amp_bounds(k: nat)
    ensures
        amp(k) <= AMP_ONE,
        k >= 1 ==> total_amp(k) >= 700_000,
        total_amp(k) <= k * AMP_ONE,
    decreases k,
{
    if k > 0 {
        lemma_amp_bounds((k - 1) as nat);
    }
}

/// Composes `octave_count` smoothed octaves of `base` into one field,
/// weighting coarser octaves more; fails on an octave count of zero.
pub fn perlin_noise(base: &Vec<Vec<u32>>, octave_count: u32) -> (r: Result<Vec<Vec<u32>>, GenError>)
    requires
        base.len() >= 1,
        is_rect(base@, base.len() as int, base@[0]@.len() as int),
        base@[0]@.len() >= 1,
        octave_count <= 64,
    ensures
        octave_count == 0 <==> r is Err,
        r is Err ==> r->Err_0 == GenError::InvalidParameter,
        r is Ok ==> is_rect(r->Ok_0@, base.len() as int, base@[0]@.len() as int),
        r is Ok ==> forall|x: int, y: int|
            0 <= x < base.len() && 0 <= y < base@[0]@.len() ==> #[trigger] r->Ok_0@[x]@[y]
                == perlin_value(base@, octave_count as nat, x, y),
        r is Ok ==> (below_unit(base@) ==> below_unit(r->Ok_0@)),
{
    if octave_count == 0 {
        return Err(GenError::InvalidParameter);
    }
    let width = base.len();
    let height = base[0].len();
    let n = octave_count;
    let ghost top: int = value_cap(base@);
    let mut acc: Vec<Vec<u64>> = Vec::new();
    let mut x: usize = 0;
    while x < width
        invariant
            x <= width,
            acc@.len() == x,
            forall|i: int| 0 <= i < x ==> #[trigger] acc@[i]@.len() == height,
            forall|i: int, j: int| 0 <= i < x && 0 <= j < height ==> #[trigger] acc@[i]@[j] == 0,
        decreases width - x,
    {
        let mut row: Vec<u64> = Vec::new();
        let mut y: usize = 0;
        while y < height
            invariant
                y <= height,
                row@.len() == y,
                forall|j: int| 0 <= j < y ==> #[trigger] row@[j] == 0,
            decreases height - y,
        {
            row.push(0);
            y = y + 1;
        }
        acc.push(row);
        x = x + 1;
    }
    let mut amplitude: u64 = AMP_ONE;
    let mut total: u64 = 0;
    let mut k: u32 = 0;
    while k < n
        invariant
            width == base.len(),
            top == value_cap(base@),
            height == base@[0]@.len(),
            is_rect(base@, width as int, height as int),
            width >= 1,
            height >= 1,
            n == octave_count,
            1 <= n <= 64,
            k <= n,
            amplitude == amp(k as nat),
            total == total_amp(k as nat),
            is_rect(acc@, width as int, height as int),
            forall|i: int, j: int|
                0 <= i < width && 0 <= j < height ==> #[trigger] acc@[i]@[j] == weighted(
                    base@,
                    n as nat,
                    i,
                    j,
                    k as nat,
                ),
            forall|i: int, j: int|
                0 <= i < width && 0 <= j < height ==> #[trigger] acc@[i]@[j] <= total * top,
        decreases n - k,
    {
        proof {
            lemma_amp_bounds(k as nat);
            lemma_amp_bounds((k + 1) as nat);
        }
        amplitude = amplitude * 7 / 10;
        total = total + amplitude;
        let layer = smooth_noise(base, n - 1 - k);
        let mut next: Vec<Vec<u64>> = Vec::new();
        let mut i: usize = 0;
        while i < width
            invariant
                width == base.len(),
                top == value_cap(base@),
                height == base@[0]@.len(),
                k < n <= 64,
                amplitude == amp((k + 1) as nat),
                total == total_amp((k + 1) as nat),
                total <= 65 * AMP_ONE,
                is_rect(acc@, width as int, height as int),
                is_rect(layer@, width as int, height as int),
                forall|a: int, b: int|
                    0 <= a < width && 0 <= b < height ==> #[trigger] layer@[a]@[b]
                        == smooth_value(base@, (n - 1 - k) as nat, a, b),
                forall|a: int, b: int|
                    0 <= a < width && 0 <= b < height ==> #[trigger] layer@[a]@[b] <= top,
                forall|a: int, b: int|
                    0 <= a < width && 0 <= b < height ==> #[trigger] acc@[a]@[b] == weighted(
                        base@,
                        n as nat,
                        a,
                        b,
                        k as nat,
                    ),
                forall|a: int, b: int|
                    0 <= a < width && 0 <= b < height ==> #[trigger] acc@[a]@[b] <= (total
                        - amplitude) * top,
                i <= width,
                is_rect(next@, i as int, height as int),
                forall|a: int, b: int|
                    0 <= a < i && 0 <= b < height ==> #[trigger] next@[a]@[b] == weighted(
                        base@,
                        n as nat,
                        a,
                        b,
                        (k + 1) as nat,
                    ),
                forall|a: int, b: int|
                    0 <= a < i && 0 <= b < height ==> #[trigger] next@[a]@[b] <= total * top,
            decreases width - i,
        {
            let mut row: Vec<u64> = Vec::new();
            let mut j: usize = 0;
            while j < height
                invariant
                    width == base.len(),
                    top == value_cap(base@),
                    height == base@[0]@.len(),
                    k < n <= 64,
                    amplitude == amp((k + 1) as nat),
                    total == total_amp((k + 1) as nat),
                    total <= 65 * AMP_ONE,
                    i < width,
                    is_rect(acc@, width as int, height as int),
                    is_rect(layer@, width as int, height as int),
                    forall|a: int, b: int|
                        0 <= a < width && 0 <= b < height ==> #[trigger] layer@[a]@[b]
                            == smooth_value(base@, (n - 1 - k) as nat, a, b),
                    forall|a: int, b: int|
                        0 <= a < width && 0 <= b < height ==> #[trigger] layer@[a]@[b] <= top,
                    forall|a: int, b: int|
                        0 <= a < width && 0 <= b < height ==> #[trigger] acc@[a]@[b] == weighted(
                            base@,
                            n as nat,
                            a,
                            b,
                            k as nat,
                        ),
                    forall|a: int, b: int|
                        0 <= a < width && 0 <= b < height ==> #[trigger] acc@[a]@[b] <= (total
                            - amplitude) * top,
                    j <= height,
                    row@.len() == j,
                    forall|b: int|
                        0 <= b < j ==> #[trigger] row@[b] == weighted(
                            base@,
                            n as nat,
                            i as int,
                            b,
                            (k + 1) as nat,
                        ),
                    forall|b: int| 0 <= b < j ==> #[trigger] row@[b] <= total * top,
                decreases height - j,
            {
                let s = layer[i][j];
                let prev = acc[i][j];
                proof {
                    assert(s * amplitude <= top * amplitude) by (nonlinear_arith)
                        requires s <= top, amplitude >= 0;
                    assert((total - amplitude) * top + top * amplitude == total * top)
                        by (nonlinear_arith);
                    assert(total * top <= 65 * AMP_ONE * top) by (nonlinear_arith)
                        requires total <= 65 * AMP_ONE, top >= 0;
                    assert((n - (k + 1)) as nat == (n - 1 - k) as nat);
                    assert(weighted(base@, n as nat, i as int, j as int, (k + 1) as nat)
                        == prev + amplitude * s);
                    assert(amplitude * s == s * amplitude) by (nonlinear_arith);
                }
                let v: u64 = prev + s as u64 * amplitude;
                row.push(v);
                j = j + 1;
            }
            next.push(row);
            i = i + 1;
        }
        acc = next;
        k = k + 1;
    }
    proof {
        lemma_amp_bounds(n as nat);
    }
    let mut out: Vec<Vec<u32>> = Vec::new();
    let mut i: usize = 0;
    while i < width
        invariant
            width == base.len(),
            top == value_cap(base@),
            height == base@[0]@.len(),
            n == octave_count,
            total == total_amp(n as nat),
            total >= 700_000,
            is_rect(acc@, width as int, height as int),
            forall|a: int, b: int|
                0 <= a < width && 0 <= b < height ==> #[trigger] acc@[a]@[b] == weighted(
                    base@,
                    n as nat,
                    a,
                    b,
                    n as nat,
                ),
            forall|a: int, b: int|
                0 <= a < width && 0 <= b < height ==> #[trigger] acc@[a]@[b] <= total * top,
            i <= width,
            is_rect(out@, i as int, height as int),
            forall|a: int, b: int|
                0 <= a < i && 0 <= b < height ==> #[trigger] out@[a]@[b] == perlin_value(
                    base@,
                    n as nat,
                    a,
                    b,
                ),
            forall|a: int, b: int| 0 <= a < i && 0 <= b < height ==> #[trigger] out@[a]@[b] <= top,
        decreases width - i,
    {
        let mut row: Vec<u32> = Vec::new();
        let mut j: usize = 0;
        while j < height
            invariant
                width == base.len(),
                top == value_cap(base@),
                height == base@[0]@.len(),
                n == octave_count,
                total == total_amp(n as nat),
                total >= 700_000,
                is_rect(acc@, width as int, height as int),
                forall|a: int, b: int|
                    0 <= a < width && 0 <= b < height ==> #[trigger] acc@[a]@[b] == weighted(
                        base@,
                        n as nat,
                        a,
                        b,
                        n as nat,
                    ),
                forall|a: int, b: int|
                    0 <= a < width && 0 <= b < height ==> #[trigger] acc@[a]@[b] <= total * top,
                i < width,
                j <= height,
                row@.len() == j,
                forall|b: int|
                    0 <= b < j ==> #[trigger] row@[b] == perlin_value(base@, n as nat, i as int, b),
                forall|b: int| 0 <= b < j ==> #[trigger] row@[b] <= top,
            decreases height - j,
        {
            let sum = acc[i][j];
            proof {
                lemma_div_is_ordered(sum as int, total * top, total as int);
                lemma_div_multiples_vanish(top, total as int);
                assert(total * top == top * total) by (nonlinear_arith);
            }
            row.push((sum / total) as u32);
            j = j + 1;
        }
        out.push(row);
        i = i + 1;
    }
    Ok(out)
}

/// A `width` by `height` field of values drawn independently from
/// `0..UNIT`, that is from [0, 1).
pub fn white_noise(width: usize, height: usize, rng: &mut StdRng) -> (r: Vec<Vec<u32>>)
    ensures
        is_rect(r@, width as int, height as int),
        forall|x: int, y: int| 0 <= x < width && 0 <= y < height ==> #[trigger] r@[x]@[y] < UNIT,
{
    let mut out: Vec<Vec<u32>> = Vec::new();
    let mut x: usize = 0;
    while x < width
        invariant
            x <= width,
            is_rect(out@, x as int, height as int),
            forall|i: int, j: int| 0 <= i < x && 0 <= j < height ==> #[trigger] out@[i]@[j] < UNIT,
        decreases width - x,
    {
        let mut row: Vec<u32> = Vec::new();
        let mut y: usize = 0;
        while y < height
            invariant
                y <= height,
                row@.len() == y,
                forall|j: int| 0 <= j < y ==> #[trigger] row@[j] < UNIT,
            decreases height - y,
        {
            let v = draw_below(rng, UNIT as u64);
            row.push(v as u32);
            y = y + 1;
        }
        out.push(row);
        x = x + 1;
    }
    out
}

} // verus!
