use vstd::prelude::*;
use vstd::arithmetic::div_mod::lemma_fundamental_div_mod_converse;

verus! {

/// Number of palettes; a palette code is below this.
pub const PALETTE_COUNT: u32 = 8;

/// Number of distinct worker tints; worker `w` gets tint `w % TINT_COUNT`.
pub const TINT_COUNT: u32 = 6;

/// The packed colour with red in bits 0-7, green in bits 8-15 and blue in bits 16-23.
pub open spec fn packed(r: int, g: int, b: int) -> int {
    r + 256 * g + 65536 * b
}

pub open spec fn red(c: int) -> int {
    c % 256
}

pub open spec fn green(c: int) -> int {
    (c / 256) % 256
}

pub open spec fn blue(c: int) -> int {
    (c / 65536) % 256
}

/// Channel `k` of a packed colour: 0 is red, 1 green, 2 blue.
pub open spec fn channel(c: int, k: int) -> int {
    if k == 0 {
        red(c)
    } else if k == 1 {
        green(c)
    } else {
        blue(c)
    }
}

pub open spec fn is_byte(v: int) -> bool {
    0 <= v < 256
}

/// A packed colour holds its three channels and nothing above bit 23.
pub proof fn lemma_packed_channels(r: int, g: int, b: int)
    requires
        is_byte(r),
        is_byte(g),
        is_byte(b),
    ensures
        red(packed(r, g, b)) == r,
        green(packed(r, g, b)) == g,
        blue(packed(r, g, b)) == b,
        0 <= packed(r, g, b) < 16777216,
{
    let c = packed(r, g, b);
    lemma_fundamental_div_mod_converse(c, 256, g + 256 * b, r);
    lemma_fundamental_div_mod_converse(g + 256 * b, 256, b, g);
    lemma_fundamental_div_mod_converse(c, 65536, b, r + 256 * g);
    lemma_fundamental_div_mod_converse(b, 256, 0, b);
}

/// Packs three channels into one colour value.
pub fn pack_rgb(r: u32, g: u32, b: u32) -> (c: u32)
    requires
        r < 256,
        g < 256,
        b < 256,
    ensures
        c as int == packed(r as int, g as int, b as int),
        red(c as int) == r,
        green(c as int) == g,
        blue(c as int) == b,
{
    proof {
        lemma_packed_channels(r as int, g as int, b as int);
    }
    r + 256 * g + 65536 * b
}

/// Splits a packed colour into its red, green and blue channels.
pub fn unpack_rgb(c: u32) -> (rgb: (u8, u8, u8))
    ensures
        rgb.0 as int == red(c as int),
        rgb.1 as int == green(c as int),
        rgb.2 as int == blue(c as int),
{
    ((c % 256) as u8, ((c / 256) % 256) as u8, ((c / 65536) % 256) as u8)
}

/// Whether palette `code` draws escaped points in channel `k`. Palette 0 uses
/// all three; palette `code > 0` uses the channels whose bit is set in `code`
/// (bit 0 red, bit 1 green, bit 2 blue).
pub open spec fn palette_uses(code: int, k: int) -> bool {
    code == 0 || (if k == 0 {
        code % 2 == 1
    } else if k == 1 {
        (code / 2) % 2 == 1
    } else {
        code >= 4
    })
}

/// Brightness of a point that escaped at iteration `n` of `max`: palette 0 is
/// banded (sixteen levels repeating), the others a smooth ramp up to 255.
pub open spec fn level(code: int, n: int, max: int) -> int {
    if code == 0 {
        (n % 16) * 17
    } else {
        n * 255 / max
    }
}

/// The colour that palette `code` gives a point; `None` means it did not
/// escape within `max` iterations, which is black in every palette.
pub open spec fn palette_colour(code: int, escape: Option<u32>, max: int) -> int {
    match escape {
        None => 0,
        Some(n) => {
            let t = level(code, n as int, max);
            packed(
                if palette_uses(code, 0) { t } else { 0 },
                if palette_uses(code, 1) { t } else { 0 },
                if palette_uses(code, 2) { t } else { 0 },
            )
        },
    }
}

/// Colours an escape result with palette `code`.
pub fn escape_colour(code: u32, escape: Option<u32>, max: u32) -> (c: u32)
    requires
        code < PALETTE_COUNT,
        max > 0,
        escape matches Some(n) ==> n <= max,
    ensures
        c as int == palette_colour(code as int, escape, max as int),
{
    match escape {
        None => 0,
        Some(n) => {
            let t: u32 = if code == 0 {
                (n % 16) * 17
            } else {
                assert(n as int * 255 <= max as int * 255) by (nonlinear_arith)
                    requires n <= max;
                assert(n as int * 255 / max as int <= 255) by (nonlinear_arith)
                    requires n as int * 255 <= max as int * 255, max > 0;
                ((n as u64 * 255) / max as u64) as u32
            };
            let r = if code == 0 || code % 2 == 1 { t } else { 0 };
            let g = if code == 0 || (code / 2) % 2 == 1 { t } else { 0 };
            let b = if code == 0 || code >= 4 { t } else { 0 };
            pack_rgb(r, g, b)
        },
    }
}

/// The tint of worker `w`: one of six fully saturated colours, channel `k`.
pub open spec fn tint_channel(w: int, k: int) -> int {
    let i = w % 6;
    let on = if k == 0 {
        i == 0 || i == 3 || i == 4
    } else if k == 1 {
        i == 1 || i == 3 || i == 5
    } else {
        i == 2 || i == 4 || i == 5
    };
    if on { 255 } else { 0 }
}

/// Colour `c` blended half and half with the tint of worker `w`.
pub open spec fn tinted(c: int, w: int) -> int {
    packed(
        (red(c) + tint_channel(w, 0)) / 2,
        (green(c) + tint_channel(w, 1)) / 2,
        (blue(c) + tint_channel(w, 2)) / 2,
    )
}

/// Blends colour `c` with the tint of worker `w`.
pub fn tint(c: u32, w: u32) -> (t: u32)
    ensures
        t as int == tinted(c as int, w as int),
{
    let (r, g, b) = unpack_rgb(c);
    let i = w % TINT_COUNT;
    let tr: u32 = if i == 0 || i == 3 || i == 4 { 255 } else { 0 };
    let tg: u32 = if i == 1 || i == 3 || i == 5 { 255 } else { 0 };
    let tb: u32 = if i == 2 || i == 4 || i == 5 { 255 } else { 0 };
    pack_rgb((r as u32 + tr) / 2, (g as u32 + tg) / 2, (b as u32 + tb) / 2)
}

/// Two workers whose tints differ leave different colours on the same
/// underlying colour: whatever was computed, one channel sits at least half
/// the range apart.
pub proof fn lemma_tints_distinguish(c: int, w1: int, w2: int)
    requires
        w1 >= 0,
        w2 >= 0,
        w1 % 6 != w2 % 6,
    ensures
        tinted(c, w1) != tinted(c, w2),
{
    let (r, g, b) = (red(c), green(c), blue(c));
    let a1 = (r + tint_channel(w1, 0)) / 2;
    let a2 = (g + tint_channel(w1, 1)) / 2;
    let a3 = (b + tint_channel(w1, 2)) / 2;
    let b1 = (r + tint_channel(w2, 0)) / 2;
    let b2 = (g + tint_channel(w2, 1)) / 2;
    let b3 = (b + tint_channel(w2, 2)) / 2;
    lemma_packed_channels(a1, a2, a3);
    lemma_packed_channels(b1, b2, b3);
}

/// Sum of channel `k` over a sequence of packed colours.
pub open spec fn channel_sum(s: Seq<u32>, k: int) -> int
    decreases s.len(),
{
    if s.len() == 0 {
        0
    } else {
        channel_sum(s.drop_last(), k) + channel(s.last() as int, k)
    }
}

/// The channel-wise arithmetic mean (rounded down) of a non-empty sequence of
/// packed colours.
pub open spec fn mean_colour(s: Seq<u32>) -> int {
    packed(
        channel_sum(s, 0) / (s.len() as int),
        channel_sum(s, 1) / (s.len() as int),
        channel_sum(s, 2) / (s.len() as int),
    )
}

proof fn lemma_channel_sum_bound(s: Seq<u32>, k: int)
    ensures
        0 <= channel_sum(s, k) <= 255 * s.len(),
    decreases s.len(),
{
    if s.len() > 0 {
        lemma_channel_sum_bound(s.drop_last(), k);
    }
}

/// Channel-wise arithmetic mean, rounded down, of a non-empty list of colours.
pub fn average_colours(v: &Vec<u32>) -> (c: u32)
    requires
        0 < v.len() <= 0xffff_ffff,
    ensures
        c as int == mean_colour(v@),
{
    let mut sr: u64 = 0;
    let mut sg: u64 = 0;
    let mut sb: u64 = 0;
    let mut i: usize = 0;
    while i < v.len()
        invariant
            0 <= i <= v.len() <= 0xffff_ffff,
            sr == channel_sum(v@.take(i as int), 0),
            sg == channel_sum(v@.take(i as int), 1),
            sb == channel_sum(v@.take(i as int), 2),
        decreases v.len() - i,
    {
        let (r, g, b) = unpack_rgb(v[i]);
        assert(v@.take(i + 1).drop_last() == v@.take(i as int));
        proof {
            lemma_channel_sum_bound(v@.take(i as int), 0);
            lemma_channel_sum_bound(v@.take(i as int), 1);
            lemma_channel_sum_bound(v@.take(i as int), 2);
        }
        sr = sr + r as u64;
        sg = sg + g as u64;
        sb = sb + b as u64;
        i = i + 1;
    }
    assert(v@.take(v.len() as int) == v@);
    let n = v.len() as u64;
    proof {
        lemma_channel_sum_bound(v@, 0);
        lemma_channel_sum_bound(v@, 1);
        lemma_channel_sum_bound(v@, 2);
        let m = n as int;
        assert(sr as int / m <= 255 && sg as int / m <= 255 && sb as int / m <= 255) by (nonlinear_arith)
            requires
                0 <= sr <= 255 * m,
                0 <= sg <= 255 * m,
                0 <= sb <= 255 * m,
                m > 0;
    }
    pack_rgb((sr / n) as u32, (sg / n) as u32, (sb / n) as u32)
}

} // verus!
