use vstd::prelude::*;
use crate::colour::PALETTE_COUNT;

verus! {

/// Fractional bits of the fixed-point numbers that hold complex-plane values.
pub const FRAC_BITS: u32 = 32;

/// The fixed-point representation of 1.0.
pub const ONE: i64 = 4294967296;

/// Largest number of pixels of an image, and of sub-samples of a pixel: both
/// are counted in `u32`.
pub const MAX_COUNT: u64 = 0xffff_ffff;

/// The parameters of one rendering run. Complex-plane values are fixed-point
/// numbers with `FRAC_BITS` fractional bits.
#[derive(Clone, Copy, Debug, PartialEq, Eq)]
pub struct Config {
    pub width: u32,
    pub height: u32,
    pub centre_x: i64,
    pub centre_y: i64,
    /// Half the height of the viewport.
    pub scale_y: i64,
    pub max_iterations: u32,
    /// Side of the supersampling grid of each pixel.
    pub samples: u32,
    pub palette: u32,
    /// Tint each row by the worker that rendered it.
    pub colourise: bool,
    pub threads: u32,
    pub progress: bool,
}

/// Why a set of parameters does not make a configuration.
#[derive(Clone, Copy, Debug, PartialEq, Eq)]
pub enum ConfigError {
    /// Width or height is zero, or `width * height` exceeds `MAX_COUNT`.
    Size,
    /// The iteration budget is zero.
    Iterations,
    /// Samples is zero, or `samples * samples` exceeds `MAX_COUNT`.
    Samples,
    /// No palette has this code.
    Palette,
    /// The number of workers is zero.
    Threads,
}

pub open spec fn abs(v: int) -> int {
    if v < 0 { -v } else { v }
}

pub open spec fn size_ok(width: u32, height: u32) -> bool {
    width >= 1 && height >= 1 && width * height <= MAX_COUNT
}

pub open spec fn samples_ok(samples: u32) -> bool {
    samples >= 1 && samples * samples <= MAX_COUNT
}

impl Config {
    pub open spec fn wf(&self) -> bool {
        &&& size_ok(self.width, self.height)
        &&& self.max_iterations >= 1
        &&& samples_ok(self.samples)
        &&& self.palette < PALETTE_COUNT
        &&& self.threads >= 1
    }

    /// Number of pixels, `width * height`.
    pub open spec fn pixels(&self) -> nat {
        (self.width * self.height) as nat
    }

    /// Builds a configuration, checking the parameters in the order of the
    /// error variants and reporting the first that fails.
    pub fn new(
        width: u32,
        height: u32,
        centre_x: i64,
        centre_y: i64,
        scale_y: i64,
        max_iterations: u32,
        samples: u32,
        palette: u32,
        colourise: bool,
        threads: u32,
        progress: bool,
    ) -> (r: Result<Config, ConfigError>)
        ensures
            !size_ok(width, height) <==> r == Err::<Config, ConfigError>(ConfigError::Size),
            size_ok(width, height) && max_iterations == 0 <==> r == Err::<Config, ConfigError>(
                ConfigError::Iterations,
            ),
            size_ok(width, height) && max_iterations >= 1 && !samples_ok(samples) <==> r == Err::<
                Config,
                ConfigError,
            >(ConfigError::Samples),
            size_ok(width, height) && max_iterations >= 1 && samples_ok(samples) && palette
                >= PALETTE_COUNT <==> r == Err::<Config, ConfigError>(ConfigError::Palette),
            size_ok(width, height) && max_iterations >= 1 && samples_ok(samples) && palette
                < PALETTE_COUNT && threads == 0 <==> r == Err::<Config, ConfigError>(
                ConfigError::Threads,
            ),
            r is Ok <==> size_ok(width, height) && max_iterations >= 1 && samples_ok(samples)
                && palette < PALETTE_COUNT && threads >= 1,
            r matches Ok(c) ==> c.wf() && c == (Config {
                width,
                height,
                centre_x,
                centre_y,
                scale_y,
                max_iterations,
                samples,
                palette,
                colourise,
                threads,
                progress,
            }),
    {
        assert(width * height <= 0xffff_ffff * 0xffff_ffff) by (nonlinear_arith)
            requires width <= 0xffff_ffff, height <= 0xffff_ffff;
        assert(samples * samples <= 0xffff_ffff * 0xffff_ffff) by (nonlinear_arith)
            requires samples <= 0xffff_ffff;
        if width < 1 || height < 1 || (width as u64) * (height as u64) > MAX_COUNT {
            return Err(ConfigError::Size);
        }
        if max_iterations == 0 {
            return Err(ConfigError::Iterations);
        }
        if samples < 1 || (samples as u64) * (samples as u64) > MAX_COUNT {
            return Err(ConfigError::Samples);
        }
        if palette >= PALETTE_COUNT {
            return Err(ConfigError::Palette);
        }
        if threads == 0 {
            return Err(ConfigError::Threads);
        }
        Ok(
            Config {
                width,
                height,
                centre_x,
                centre_y,
                scale_y,
                max_iterations,
                samples,
                palette,
                colourise,
                threads,
                progress,
            },
        )
    }

    /// Number of pixels of the image.
    pub fn pixel_count(&self) -> (n: usize)
        requires
            self.wf(),
        ensures
            n == self.pixels(),
            n <= MAX_COUNT,
    {
        (self.width as usize) * (self.height as usize)
    }
}

} // verus!
