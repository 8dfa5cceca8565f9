use vstd::prelude::*;
use crate::colour::{average_colours, escape_colour, mean_colour, palette_colour, tint, tinted};
use crate::config::{abs, samples_ok, Config, MAX_COUNT, ONE};

verus! {

/// Division rounding toward zero, as integer division does in Rust.
pub open spec fn trunc_div(a: int, d: int) -> int {
    if a >= 0 {
        a / d
    } else {
        -((-a) / d)
    }
}

/// Fixed-point multiplication of two values already multiplied together: `p / ONE`.
pub open spec fn rescale(p: int) -> int {
    trunc_div(p, ONE as int)
}

/// `|z|^2 > 4` for the fixed-point point `z = x + y i`.
pub open spec fn escaped(x: int, y: int) -> bool {
    x * x + y * y > 4 * (ONE as int) * (ONE as int)
}

/// The escape iteration of the orbit of `c` from `z_n = x + y i` on: the first
/// `m >= n` with `|z_m|^2 > 4`, or `None` if there is none up to `max`.
pub open spec fn escape_from(x: int, y: int, cx: int, cy: int, n: nat, max: nat) -> Option<u32>
    decreases max - n,
{
    if escaped(x, y) {
        Some(n as u32)
    } else if n >= max {
        None
    } else {
        escape_from(rescale(x * x - y * y) + cx, rescale(2 * x * y) + cy, cx, cy, n + 1, max)
    }
}

/// The escape iteration of `c = cx + cy i` under `z <- z^2 + c` from `z_0 = 0`.
pub open spec fn escape_time_of(cx: int, cy: int, max: nat) -> Option<u32> {
    escape_from(0, 0, cx, cy, 0, max)
}

fn div_toward_zero(a: i128, d: i128) -> (q: i128)
    requires
        d > 0,
        a > i128::MIN,
    ensures
        q == trunc_div(a as int, d as int),
{
    if a >= 0 {
        a / d
    } else {
        -((-a) / d)
    }
}

proof fn lemma_rescale_bound(p: int)
    requires
        abs(p) <= 4 * (ONE as int) * (ONE as int),
    ensures
        abs(rescale(p)) <= 4 * ONE,
{
    let one = ONE as int;
    let a = abs(p);
    vstd::arithmetic::div_mod::lemma_div_is_ordered(a, 4 * one * one, one);
    vstd::arithmetic::div_mod::lemma_fundamental_div_mod_converse(4 * one * one, one, 4 * one, 0);
    vstd::arithmetic::div_mod::lemma_div_pos_is_pos(a, one);
}

/// Escape iteration of the fixed-point point `cx + cy i` within `max` steps.
pub fn escape_time(cx: i128, cy: i128, max: u32) -> (r: Option<u32>)
    ensures
        r == escape_time_of(cx as int, cy as int, max as nat),
        r matches Some(n) ==> n <= max,
{
    if max == 0 {
        return None;
    }
    let two: i128 = 2 * (ONE as i128);
    assert(escape_time_of(cx as int, cy as int, max as nat) == escape_from(
        cx as int,
        cy as int,
        cx as int,
        cy as int,
        1,
        max as nat,
    )) by {
        assert(rescale(0) == 0);
    }
    if cx > two || cx < -two || cy > two || cy < -two {
        // z_1 = c already lies outside the radius: no need to square it.
        assert(escaped(cx as int, cy as int)) by (nonlinear_arith)
            requires
                two == 2 * ONE,
                ONE > 0,
                cx > two || cx < -two || cy > two || cy < -two,
        ;
        return Some(1);
    }
    let ghost bound: int = 6 * ONE;
    let mut x: i128 = cx;
    let mut y: i128 = cy;
    let mut n: u32 = 1;
    loop
        invariant
            1 <= n <= max,
            abs(x as int) <= bound,
            abs(y as int) <= bound,
            bound == 6 * ONE,
            abs(cx as int) <= 2 * ONE,
            abs(cy as int) <= 2 * ONE,
            escape_from(x as int, y as int, cx as int, cy as int, n as nat, max as nat)
                == escape_time_of(cx as int, cy as int, max as nat),
        decreases max - n,
    {
        assert(abs(x as int) * abs(x as int) <= bound * bound) by (nonlinear_arith)
            requires abs(x as int) <= bound, 0 <= abs(x as int);
        assert(abs(y as int) * abs(y as int) <= bound * bound) by (nonlinear_arith)
            requires abs(y as int) <= bound, 0 <= abs(y as int);
        assert(bound * bound < 0x1_0000_0000_0000_0000_0000) by (nonlinear_arith)
            requires bound == 6 * 4294967296int;
        assert(x * x == abs(x as int) * abs(x as int)) by (nonlinear_arith);
        assert(y * y == abs(y as int) * abs(y as int)) by (nonlinear_arith);
        let x2 = x * x;
        let y2 = y * y;
        if x2 + y2 > 4 * (ONE as i128) * (ONE as i128) {
            return Some(n);
        }
        if n >= max {
            return None;
        }
        assert(abs(2 * x * y) <= x * x + y * y) by (nonlinear_arith);
        assert(abs(x * x - y * y) <= x * x + y * y) by (nonlinear_arith);
        let xy = 2 * x * y;
        let rx = div_toward_zero(x2 - y2, ONE as i128);
        let ry = div_toward_zero(xy, ONE as i128);
        proof {
            lemma_rescale_bound(x * x - y * y);
            lemma_rescale_bound(2 * x * y);
        }
        x = rx + cx;
        y = ry + cy;
        n = n + 1;
    }
}

/// Point `k` of the `samples x samples` grid of pixel `(px, py)`: grid point
/// `(i, j) = (k % samples, k / samples)` lies at pixel coordinates
/// `(px + i / samples, py + j / samples)`, which map to
/// `centre + (2 * coordinate / side - 1) * scale`, with `scale_x = scale_y * width / height`.
pub open spec fn sub_point(cfg: Config, px: int, py: int, k: int) -> (int, int) {
    let s = cfg.samples as int;
    let i = k % s;
    let j = k / s;
    let den = cfg.height * s;
    (
        cfg.centre_x + trunc_div((2 * (px * s + i) - cfg.width * s) * cfg.scale_y, den),
        cfg.centre_y + trunc_div((2 * (py * s + j) - cfg.height * s) * cfg.scale_y, den),
    )
}

/// Colour of grid point `k` of pixel `(px, py)`.
pub open spec fn sub_colour(cfg: Config, px: int, py: int, k: int) -> u32 {
    let (cx, cy) = sub_point(cfg, px, py, k);
    palette_colour(
        cfg.palette as int,
        escape_time_of(cx, cy, cfg.max_iterations as nat),
        cfg.max_iterations as int,
    ) as u32
}

/// The colours of all grid points of pixel `(px, py)`.
pub open spec fn sub_colours(cfg: Config, px: int, py: int) -> Seq<u32> {
    Seq::new((cfg.samples * cfg.samples) as nat, |k: int| sub_colour(cfg, px, py, k))
}

/// The colour of pixel `(px, py)` rendered by worker `w`: the mean of its grid
/// points, tinted by the worker when the configuration asks for it.
pub open spec fn pixel_colour(cfg: Config, w: int, px: int, py: int) -> int {
    let base = mean_colour(sub_colours(cfg, px, py));
    if cfg.colourise {
        tinted(base, w)
    } else {
        base
    }
}

/// Bound on the magnitude of an offset from the viewport centre.
pub const OFFSET_LIMIT: i128 = 0x8000_0000_0000_0000_0000_0000_0000;

/// A side of at most `MAX_COUNT` sub-samples has at most 65535 of them.
proof fn lemma_samples_bound(s: u32)
    requires
        samples_ok(s),
    ensures
        s <= 65535,
{
    if s > 65535 {
        assert(s * s >= 65536 * 65536) by (nonlinear_arith)
            requires s >= 65536;
    }
}

/// The offset from the centre of grid coordinate `t` on an axis of `len`
/// pixels split `s` ways, in a viewport of half-height `scale` over `den` grid rows.
fn axis_offset(t: u64, len: u32, s: u32, scale: i64, den: u64) -> (o: i128)
    requires
        t <= len * s,
        1 <= s <= 65535,
        den > 0,
    ensures
        o == trunc_div((2 * t - len * s) * scale, den as int),
        abs(o as int) <= OFFSET_LIMIT,
{
    let ghost lim: int = 0x1_0000_0000_0000;
    assert(len * s < lim) by (nonlinear_arith)
        requires len <= 0xffff_ffff, s <= 65535, lim == 0x1_0000_0000_0000;
    let span: i128 = 2 * (t as i128) - (len as i128) * (s as i128);
    assert(abs(span as int) <= lim);
    assert(abs(span * scale) <= lim * 0x8000_0000_0000_0000) by (nonlinear_arith)
        requires
            abs(span as int) <= lim,
            -0x8000_0000_0000_0000 <= scale <= 0x7fff_ffff_ffff_ffff,
    ;
    let num = span * (scale as i128);
    let q = div_toward_zero(num, den as i128);
    proof {
        let a = abs(num as int);
        vstd::arithmetic::div_mod::lemma_div_is_ordered_by_denominator(a, 1, den as int);
        vstd::arithmetic::div_mod::lemma_div_pos_is_pos(a, den as int);
        assert(a / 1 == a);
    }
    q
}

/// The colour of pixel `(px, py)` rendered by worker `w`.
pub fn compute_pixel(cfg: &Config, w: u32, px: u32, py: u32) -> (c: u32)
    requires
        cfg.wf(),
        px < cfg.width,
        py < cfg.height,
    ensures
        c as int == pixel_colour(*cfg, w as int, px as int, py as int),
{
    let s = cfg.samples;
    proof {
        lemma_samples_bound(s);
    }
    assert(1 <= s * s) by (nonlinear_arith)
        requires 1 <= s;
    let count = s * s;
    assert(1 <= cfg.height * s) by (nonlinear_arith)
        requires 1 <= cfg.height, 1 <= s;
    assert(cfg.height * s <= 0xffff_ffff * 65535 && cfg.width * s <= 0xffff_ffff * 65535)
        by (nonlinear_arith)
        requires cfg.height <= 0xffff_ffff, cfg.width <= 0xffff_ffff, s <= 65535;
    let den = (cfg.height as u64) * (s as u64);
    let mut colours: Vec<u32> = Vec::new();
    let mut k: u32 = 0;
    while k < count
        invariant
            cfg.wf(),
            s == cfg.samples,
            1 <= s <= 65535,
            count == s * s,
            1 <= count <= MAX_COUNT,
            den == cfg.height * s,
            den >= 1,
            cfg.width * s <= 0xffff_ffff * 65535,
            px < cfg.width,
            py < cfg.height,
            k <= count,
            colours@ == Seq::new(k as nat, |t: int| sub_colour(*cfg, px as int, py as int, t)),
        decreases count - k,
    {
        let i = k % s;
        let j = k / s;
        assert(j < s) by (nonlinear_arith)
            requires k < s * s, j == k / s, s > 0;
        assert(px * s + i <= cfg.width * s && py * s + j <= cfg.height * s) by (nonlinear_arith)
            requires px < cfg.width, py < cfg.height, i < s, j < s;
        let tx = (px as u64) * (s as u64) + (i as u64);
        let ty = (py as u64) * (s as u64) + (j as u64);
        let u = axis_offset(tx, cfg.width, s, cfg.scale_y, den);
        let v = axis_offset(ty, cfg.height, s, cfg.scale_y, den);
        let cx = cfg.centre_x as i128 + u;
        let cy = cfg.centre_y as i128 + v;
        let e = escape_time(cx, cy, cfg.max_iterations);
        let c = escape_colour(cfg.palette, e, cfg.max_iterations);
        colours.push(c);
        k = k + 1;
        assert(colours@ =~= Seq::new(k as nat, |t: int| sub_colour(*cfg, px as int, py as int, t)));
    }
    assert(colours@ =~= sub_colours(*cfg, px as int, py as int));
    let base = average_colours(&colours);
    if cfg.colourise {
        tint(base, w)
    } else {
        base
    }
}

} // verus!
