use vstd::prelude::*;
use vstd::arithmetic::div_mod::lemma_fundamental_div_mod_converse;
use crate::aggregate::Aggregator;
use crate::colour::lemma_tints_distinguish;
use crate::config::Config;
use crate::dispatch::LineDispatcher;
use crate::kernel::{compute_pixel, pixel_colour};

verus! {

/// The image that a run produces when row `y` is rendered by worker
/// `owners[y]`: slot `y * width + x` holds the colour of pixel `(x, y)`.
pub open spec fn image(cfg: Config, owners: Seq<u32>) -> Seq<u32> {
    Seq::new(
        cfg.pixels(),
        |i: int|
            pixel_colour(
                cfg,
                owners[i / (cfg.width as int)] as int,
                i % (cfg.width as int),
                i / (cfg.width as int),
            ) as u32,
    )
}

/// Renders row `y` as worker `w`: entry `x` is the colour of pixel `(x, y)`.
pub fn render_row(cfg: &Config, w: u32, y: u32) -> (row: Vec<u32>)
    requires
        cfg.wf(),
        y < cfg.height,
    ensures
        row@.len() == cfg.width,
        forall|x: int|
            0 <= x < cfg.width ==> #[trigger] row@[x] as int == pixel_colour(*cfg, w as int, x, y as int),
{
    let mut row: Vec<u32> = Vec::new();
    let mut x: u32 = 0;
    while x < cfg.width
        invariant
            cfg.wf(),
            y < cfg.height,
            x <= cfg.width,
            row@.len() == x,
            forall|i: int|
                0 <= i < x ==> #[trigger] row@[i] as int == pixel_colour(*cfg, w as int, i, y as int),
        decreases cfg.width - x,
    {
        let c = compute_pixel(cfg, w, x, y);
        row.push(c);
        x = x + 1;
    }
    row
}

/// What a worker sends for row `y`: for each `x`, the pixel's slot in the
/// output buffer, `y * width + x`, with its colour.
pub fn row_results(cfg: &Config, w: u32, y: u32) -> (out: Vec<(usize, u32)>)
    requires
        cfg.wf(),
        y < cfg.height,
    ensures
        out@.len() == cfg.width,
        forall|x: int|
            0 <= x < cfg.width ==> {
                &&& (#[trigger] out@[x]).0 == y * cfg.width + x
                &&& out@[x].0 < cfg.pixels()
                &&& out@[x].1 as int == pixel_colour(*cfg, w as int, x, y as int)
            },
{
    let total = cfg.pixel_count();
    let row = render_row(cfg, w, y);
    let mut out: Vec<(usize, u32)> = Vec::new();
    let mut x: u32 = 0;
    while x < cfg.width
        invariant
            cfg.wf(),
            total == cfg.pixels(),
            y < cfg.height,
            x <= cfg.width,
            row@.len() == cfg.width,
            forall|i: int|
                0 <= i < cfg.width ==> #[trigger] row@[i] as int == pixel_colour(*cfg, w as int, i, y as int),
            out@.len() == x,
            forall|i: int|
                0 <= i < x ==> {
                    &&& (#[trigger] out@[i]).0 == y * cfg.width + i
                    &&& out@[i].0 < cfg.pixels()
                    &&& out@[i].1 == row@[i]
                },
        decreases cfg.width - x,
    {
        proof {
            lemma_slot_of_pixel(*cfg, x as int, y as int);
        }
        out.push(((y as usize) * (cfg.width as usize) + (x as usize), row[x as usize]));
        x = x + 1;
    }
    out
}

proof fn lemma_slot_of_pixel(cfg: Config, x: int, y: int)
    requires
        cfg.wf(),
        0 <= x < cfg.width,
        0 <= y < cfg.height,
    ensures
        0 <= y * cfg.width + x < cfg.pixels(),
        (y * cfg.width + x) / (cfg.width as int) == y,
        (y * cfg.width + x) % (cfg.width as int) == x,
{
    let w = cfg.width as int;
    lemma_fundamental_div_mod_converse(y * w + x, w, y, x);
    assert(0 <= y * w + x < cfg.height * w) by (nonlinear_arith)
        requires 0 <= x < w, 0 <= y < cfg.height;
    assert(cfg.height * w == cfg.width * cfg.height) by (nonlinear_arith)
        requires w == cfg.width;
}

/// Runs a whole render with the claims on the dispatcher made in the order of
/// `schedule`: claim `k` is made by worker `schedule[k]`. Every row is claimed,
/// rendered and aggregated, and the result is the image in which each row
/// carries the worker that claimed it.
pub fn render_scheduled(cfg: &Config, schedule: &Vec<u32>) -> (buffer: Vec<u32>)
    requires
        cfg.wf(),
        schedule.len() >= cfg.height,
        forall|k: int| 0 <= k < schedule.len() ==> #[trigger] schedule@[k] < cfg.threads,
    ensures
        buffer@ == image(*cfg, schedule@),
{
    let total = cfg.pixel_count();
    let ghost target = image(*cfg, schedule@);
    let mut lines = LineDispatcher::new(cfg.height);
    let mut agg = Aggregator::new(total);
    let mut k: usize = 0;
    while k < schedule.len()
        invariant
            cfg.wf(),
            total == cfg.pixels(),
            target == image(*cfg, schedule@),
            schedule.len() >= cfg.height,
            k <= schedule.len(),
            lines.wf(),
            lines.rows() == cfg.height,
            lines.next_row() == if k < cfg.height { k as nat } else { cfg.height as nat },
            agg.wf(),
            agg.pixels().len() == total,
            agg.written().len() == total,
            forall|i: int|
                0 <= i < total ==> #[trigger] agg.written()[i] == (i < lines.next_row()
                    * cfg.width),
            forall|i: int|
                0 <= i < lines.next_row() * cfg.width ==> #[trigger] agg.pixels()[i]
                    == target[i],
        decreases schedule.len() - k,
    {
        let claimed = lines.claim();
        if let Some(y) = claimed {
            let row = render_row(cfg, schedule[k], y);
            let mut x: u32 = 0;
            while x < cfg.width
                invariant
                    cfg.wf(),
                    total == cfg.pixels(),
                    target == image(*cfg, schedule@),
                    y == k,
                    y < cfg.height,
                    k < schedule.len(),
                    x <= cfg.width,
                    row@.len() == cfg.width,
                    forall|i: int|
                        0 <= i < cfg.width ==> #[trigger] row@[i] as int == pixel_colour(
                            *cfg,
                            schedule@[k as int] as int,
                            i,
                            y as int,
                        ),
                    agg.wf(),
                    agg.pixels().len() == total,
                    agg.written().len() == total,
                    forall|i: int|
                        0 <= i < total ==> #[trigger] agg.written()[i] == (i < y * cfg.width
                            + x),
                    forall|i: int|
                        0 <= i < y * cfg.width + x ==> #[trigger] agg.pixels()[i] == target[i],
                decreases cfg.width - x,
            {
                proof {
                    lemma_slot_of_pixel(*cfg, x as int, y as int);
                }
                let index = (y as usize) * (cfg.width as usize) + (x as usize);
                let ghost before = agg;
                let accepted = agg.accept(index, row[x as usize]);
                assert(accepted is Ok);
                assert(agg.written() == before.written().update(index as int, true));
                assert(agg.pixels() == before.pixels().update(index as int, row@[x as int]));
                assert(target[index as int] == row@[x as int]);
                assert forall|i: int| 0 <= i < total implies #[trigger] agg.written()[i] == (i < y
                    * cfg.width + x + 1) by {
                    if i != index {
                        assert(agg.written()[i] == before.written()[i]);
                    }
                }
                assert forall|i: int| 0 <= i < y * cfg.width + x + 1 implies #[trigger] agg.pixels()[i]
                    == target[i] by {
                    if i < index {
                        assert(agg.pixels()[i] == before.pixels()[i]);
                    }
                }
                x = x + 1;
            }
            assert((y + 1) * cfg.width == y * cfg.width + cfg.width) by (nonlinear_arith);
        }
        k = k + 1;
    }
    proof {
        assert(lines.next_row() == cfg.height);
        assert(cfg.height * cfg.width == cfg.pixels()) by (nonlinear_arith);
    }
    let buffer = agg.into_buffer();
    assert(buffer@ =~= target);
    buffer
}

/// Renders the whole image with a single worker, number 0.
pub fn render(cfg: &Config) -> (buffer: Vec<u32>)
    requires
        cfg.wf(),
    ensures
        buffer@ == image(*cfg, Seq::new(cfg.height as nat, |y: int| 0u32)),
{
    let mut schedule: Vec<u32> = Vec::new();
    let mut y: u32 = 0;
    while y < cfg.height
        invariant
            y <= cfg.height,
            schedule@ == Seq::new(y as nat, |i: int| 0u32),
        decreases cfg.height - y,
    {
        schedule.push(0);
        y = y + 1;
        assert(schedule@ =~= Seq::new(y as nat, |i: int| 0u32));
    }
    render_scheduled(cfg, &schedule)
}

/// Without tinting, neither the number of workers nor which worker renders
/// which row changes the image: two configurations that differ at most in
/// their worker count, under any two assignments of rows to workers, give the
/// same pixels.
pub proof fn lemma_image_independent_of_workers(
    cfg: Config,
    threads: u32,
    a: Seq<u32>,
    b: Seq<u32>,
)
    requires
        cfg.wf(),
        !cfg.colourise,
        threads >= 1,
        a.len() >= cfg.height,
        b.len() >= cfg.height,
    ensures
        image(cfg, a) == image(Config { threads, ..cfg }, b),
{
    let other = Config { threads, ..cfg };
    assert(image(cfg, a) =~= image(other, b)) by {
        assert forall|i: int| 0 <= i < cfg.pixels() implies #[trigger] image(cfg, a)[i] == image(
            other,
            b,
        )[i] by {
            let (x, y) = (i % (cfg.width as int), i / (cfg.width as int));
            assert(crate::kernel::sub_colours(cfg, x, y) =~= crate::kernel::sub_colours(other, x, y));
        }
    }
}

/// With tinting, two workers whose tints differ render the same pixel in
/// different colours.
pub proof fn lemma_tint_marks_worker(cfg: Config, w1: u32, w2: u32, x: int, y: int)
    requires
        cfg.wf(),
        cfg.colourise,
        w1 % 6 != w2 % 6,
    ensures
        pixel_colour(cfg, w1 as int, x, y) != pixel_colour(cfg, w2 as int, x, y),
{
    let base = crate::colour::mean_colour(crate::kernel::sub_colours(cfg, x, y));
    lemma_tints_distinguish(base, w1 as int, w2 as int);
}

} // verus!
