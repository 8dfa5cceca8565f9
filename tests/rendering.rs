use mandelbrot::aggregate::{AggregateError, Aggregator};
use mandelbrot::colour::{average_colours, escape_colour, pack_rgb, tint, unpack_rgb};
use mandelbrot::config::{Config, ConfigError, ONE};
use mandelbrot::dispatch::LineDispatcher;
use mandelbrot::kernel::{compute_pixel, escape_time};
use mandelbrot::render::{render, render_row, render_scheduled, row_results};

fn config(
    width: u32,
    height: u32,
    scale_y: i64,
    max_iterations: u32,
    samples: u32,
    colourise: bool,
    threads: u32,
) -> Config {
    Config::new(
        width,
        height,
        0,
        0,
        scale_y,
        max_iterations,
        samples,
        7,
        colourise,
        threads,
        false,
    )
    .unwrap()
}

fn view(width: u32, height: u32) -> Config {
    Config::new(width, height, -3 * ONE / 4, 0, 5 * ONE / 4, 64, 2, 7, false, 4, false).unwrap()
}

#[test]
fn packed_colour_layout() {
    let c = pack_rgb(0x12, 0x34, 0x56);
    assert_eq!(c, 0x0056_3412);
    assert_eq!(c & 0xff, 0x12);
    assert_eq!((c >> 8) & 0xff, 0x34);
    assert_eq!((c >> 16) & 0xff, 0x56);
    assert_eq!(unpack_rgb(c), (0x12, 0x34, 0x56));
    assert_eq!(unpack_rgb(0xff00_0001), (1, 0, 0));
}

#[test]
fn palette_colours() {
    assert_eq!(escape_colour(7, Some(128), 256), 0x7f7f7f);
    assert_eq!(escape_colour(7, Some(256), 256), 0xffffff);
    assert_eq!(escape_colour(1, Some(128), 256), 0x00007f);
    assert_eq!(escape_colour(2, Some(128), 256), 0x007f00);
    assert_eq!(escape_colour(4, Some(128), 256), 0x7f0000);
    assert_eq!(escape_colour(6, Some(1), 1), 0xffff00);
    assert_eq!(escape_colour(0, Some(17), 256), 0x111111);
    assert_eq!(escape_colour(0, Some(16), 256), 0);
    for code in 0..8 {
        assert_eq!(escape_colour(code, None, 256), 0);
    }
}

#[test]
fn worker_tints() {
    assert_eq!(tint(0, 0), 0x00007f);
    assert_eq!(tint(0, 1), 0x007f00);
    assert_eq!(tint(0, 2), 0x7f0000);
    assert_eq!(tint(0, 3), 0x007f7f);
    assert_eq!(tint(0xffffff, 4), 0xff7fff);
    assert_eq!(tint(0xffffff, 5), 0xffff7f);
    assert_eq!(tint(0x102030, 6), tint(0x102030, 0));
    for w1 in 0..6u32 {
        for w2 in 0..6u32 {
            if w1 != w2 {
                assert_ne!(tint(0x808080, w1), tint(0x808080, w2));
            }
        }
    }
}

#[test]
fn channel_mean() {
    assert_eq!(average_colours(&vec![0x0000ff, 0x000001]), 0x000080);
    assert_eq!(average_colours(&vec![0xffffff, 0xffffff, 0xffffff, 0]), 0xbfbfbf);
    assert_eq!(average_colours(&vec![0x123456]), 0x123456);
    assert_eq!(average_colours(&vec![0x010203, 0x030201]), 0x020202);
}

#[test]
fn escape_iterations() {
    let one = ONE as i128;
    assert_eq!(escape_time(0, 0, 1000), None);
    assert_eq!(escape_time(-2 * one, -2 * one, 1), Some(1));
    assert_eq!(escape_time(3 * one, 0, 50), Some(1));
    assert_eq!(escape_time(-2 * one, 0, 50), None);
    assert_eq!(escape_time(one, 0, 50), Some(3));
    assert_eq!(escape_time(one, 0, 2), None);
    assert_eq!(escape_time(-one, 0, 100), None);
}

#[test]
fn config_errors() {
    let ok = |w, h, cx, s, it, sm, p, t| Config::new(w, h, cx, 0, s, it, sm, p, false, t, false);
    assert_eq!(ok(0, 4, 0, ONE, 1, 1, 7, 1), Err(ConfigError::Size));
    assert_eq!(ok(4, 0, 0, ONE, 1, 1, 7, 1), Err(ConfigError::Size));
    assert_eq!(ok(65536, 65536, 0, ONE, 1, 1, 7, 1), Err(ConfigError::Size));
    assert_eq!(ok(4, 4, 0, ONE, 0, 1, 7, 1), Err(ConfigError::Iterations));
    assert_eq!(ok(4, 4, 0, ONE, 1, 0, 7, 1), Err(ConfigError::Samples));
    assert_eq!(ok(4, 4, 0, ONE, 1, 65536, 7, 1), Err(ConfigError::Samples));
    assert_eq!(ok(4, 4, 0, ONE, 1, 1, 8, 1), Err(ConfigError::Palette));
    assert_eq!(ok(4, 4, 0, ONE, 1, 1, 7, 0), Err(ConfigError::Threads));
    let c = ok(4, 3, i64::MIN, i64::MAX, 9, 65535, 0, 2).unwrap();
    assert_eq!((c.width, c.height, c.max_iterations, c.samples, c.palette), (4, 3, 9, 65535, 0));
    assert_eq!(c.pixel_count(), 12);
    let wide = ok(65536, 16, 0, ONE, 1, 1, 7, 1).unwrap();
    assert_eq!(wide.pixel_count(), 1 << 20);
    assert_eq!(ok(40000, 1000, 0, ONE, 1, 1, 7, 1).unwrap().pixel_count(), 40_000_000);
    assert_eq!(ok(65536, 65535, 0, ONE, 1, 1, 7, 1).unwrap().pixel_count(), 4_294_901_760);
}

#[test]
fn wide_image_row_renders() {
    let cfg = Config::new(65536, 16, 0, 0, 2 * ONE, 4, 1, 7, false, 1, false).unwrap();
    let row = render_row(&cfg, 0, 8);
    assert_eq!(row.len(), 65536);
    assert_eq!(row[0], compute_pixel(&cfg, 0, 0, 8));
    assert_eq!(row[65535], compute_pixel(&cfg, 0, 65535, 8));
}

#[test]
fn many_samples_render() {
    let cfg = Config::new(3, 2, -3 * ONE / 4, 0, 5 * ONE / 4, 32, 20, 7, false, 2, false).unwrap();
    let buffer = render(&cfg);
    assert_eq!(buffer.len(), 6);
    assert_eq!(buffer[4], compute_pixel(&cfg, 0, 1, 1));
}

#[test]
fn wide_and_deep_viewports_render() {
    // Scale 10: the corners lie far outside radius 2 and escape at once.
    let far = Config::new(2, 2, 0, 0, 10 * ONE, 50, 1, 7, false, 1, false).unwrap();
    assert_eq!(render(&far)[0], escape_colour(7, Some(1), 50));
    // A zoom deeper than one fixed-point unit: every pixel sits on the centre.
    let deep = Config::new(3, 3, -ONE, 0, 0, 50, 1, 7, false, 1, false).unwrap();
    assert_eq!(render(&deep), vec![0; 9]);
    // A centre far from the set.
    let away = Config::new(2, 1, 1000 * ONE, 0, ONE, 50, 1, 7, false, 1, false).unwrap();
    assert_eq!(render(&away), vec![escape_colour(7, Some(1), 50); 2]);
}

#[test]
fn escape_of_distant_points() {
    let one = ONE as i128;
    assert_eq!(escape_time(i128::MAX, 0, 10), Some(1));
    assert_eq!(escape_time(0, i128::MIN, 10), Some(1));
    assert_eq!(escape_time(3 * one, 3 * one, 1), Some(1));
    assert_eq!(escape_time(3 * one, 0, 0), None);
}

#[test]
fn dispatcher_hands_out_each_row_once() {
    let mut d = LineDispatcher::new(3);
    assert!(!d.is_exhausted());
    assert_eq!(d.claim(), Some(0));
    assert_eq!(d.claim(), Some(1));
    assert_eq!(d.claim(), Some(2));
    assert!(d.is_exhausted());
    assert_eq!(d.claim(), None);
    assert_eq!(d.claim(), None);
    let mut empty = LineDispatcher::new(0);
    assert_eq!(empty.claim(), None);
}

#[test]
fn aggregator_writes_each_slot_once() {
    let mut a = Aggregator::new(4);
    assert_eq!(a.len(), 4);
    assert_eq!(a.accept(4, 9), Err(AggregateError::OutOfRange));
    assert_eq!(a.accept(2, 7), Ok(true));
    assert_eq!(a.accept(2, 8), Err(AggregateError::Duplicate));
    assert!(!a.is_complete());
    assert_eq!(a.accept(0, 5), Ok(true));
    assert_eq!(a.accept(3, 6), Ok(true));
    assert_eq!(a.accept(1, 4), Ok(true));
    assert!(a.is_complete());
    assert_eq!(a.into_buffer(), vec![5, 4, 7, 6]);
}

#[test]
fn progress_ticks_every_hundredth() {
    let mut a = Aggregator::new(200);
    let mut ticks = 0;
    for i in 0..200 {
        if a.accept(i, 1).unwrap() {
            ticks += 1;
        }
    }
    assert_eq!(ticks, 100);
    let mut c = Aggregator::new(250);
    assert_eq!(c.accept(0, 1), Ok(false));
    assert_eq!(c.accept(1, 1), Ok(false));
    assert_eq!(c.accept(2, 1), Ok(true));
    let mut b = Aggregator::new(1000);
    let mut ticks = 0;
    for i in 0..1000 {
        if b.accept(999 - i, 1).unwrap() {
            ticks += 1;
        }
    }
    assert_eq!(ticks, 100);
}

#[test]
fn full_run_fills_every_pixel() {
    let cfg = view(16, 12);
    let buffer = render(&cfg);
    assert_eq!(buffer.len(), 16 * 12);
    for y in 0..12u32 {
        let row = render_row(&cfg, 0, y);
        assert_eq!(row.len(), 16);
        for x in 0..16u32 {
            assert_eq!(buffer[(y * 16 + x) as usize], row[x as usize]);
            assert_eq!(row[x as usize], compute_pixel(&cfg, 0, x, y));
        }
    }
}

#[test]
fn repeated_runs_are_identical() {
    let cfg = view(20, 15);
    assert_eq!(render(&cfg), render(&cfg));
}

#[test]
fn worker_count_does_not_change_image() {
    let cfg = view(20, 15);
    let single = render(&cfg);
    let alternating: Vec<u32> = (0..15).map(|k| k % 2).collect();
    let mixed: Vec<u32> = (0..20).map(|k| (k * 7) % 4).collect();
    assert_eq!(render_scheduled(&cfg, &alternating), single);
    assert_eq!(render_scheduled(&cfg, &mixed), single);
}

#[test]
fn supersampling_changes_boundary_pixel() {
    let one_sample = config(2, 2, 2 * ONE, 1, 1, false, 1);
    let four_samples = config(2, 2, 2 * ONE, 1, 2, false, 1);
    assert_eq!(compute_pixel(&one_sample, 0, 0, 0), 0xffffff);
    assert_eq!(compute_pixel(&four_samples, 0, 0, 0), 0xbfbfbf);
}

#[test]
fn coarse_grid_single_iteration() {
    // Pixel (0, 0) maps to -2 - 2i and escapes at the first iteration; the
    // other three map to -2i, -2 and 0, where |c|^2 <= 4, and stay in the set.
    let cfg = config(2, 2, 2 * ONE, 1, 1, false, 1);
    assert_eq!(render(&cfg), vec![0xffffff, 0, 0, 0]);
}

#[test]
fn origin_is_in_the_set() {
    for max in [1u32, 2, 10, 1000] {
        let cfg = config(1, 1, 1, max, 1, false, 1);
        assert_eq!(render(&cfg), vec![0]);
    }
}

#[test]
fn tint_shows_which_worker_rendered_a_row() {
    let cfg = config(4, 2, 2 * ONE, 8, 1, true, 2);
    let buffer = render_scheduled(&cfg, &vec![0, 1]);
    for x in 0..4u32 {
        let by_first = compute_pixel(&cfg, 0, x, 0);
        let by_second = compute_pixel(&cfg, 1, x, 1);
        assert_eq!(buffer[x as usize], by_first);
        assert_eq!(buffer[4 + x as usize], by_second);
        assert_ne!(compute_pixel(&cfg, 0, x, 1), by_second);
        assert_ne!(compute_pixel(&cfg, 1, x, 0), by_first);
    }
}

#[test]
fn worker_results_carry_buffer_slots() {
    let cfg = view(5, 3);
    let results = row_results(&cfg, 2, 2);
    let row = render_row(&cfg, 2, 2);
    assert_eq!(results.len(), 5);
    for x in 0..5usize {
        assert_eq!(results[x], (10 + x, row[x]));
    }
}
