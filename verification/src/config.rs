//! The integer parameters of one render, and their validation.

use vstd::prelude::*;

verus! {

/// The integer parameters of one render. They are fixed before rendering
/// starts and never change afterwards.
#[derive(Clone, Copy, Debug, PartialEq, Eq, Structural)]
pub struct RenderConfig {
    /// Image width in pixels.
    pub width: u32,
    /// Image height in pixels, which is also the number of rows to render.
    pub height: u32,
    /// Number of jittered samples averaged into each pixel.
    pub samples_per_pixel: u32,
    /// Number of threads, the collecting one included.
    pub threads: u32,
}

/// Why a configuration cannot be rendered.
#[derive(Clone, Copy, Debug, PartialEq, Eq, Structural)]
pub enum ConfigError {
    /// The width is zero.
    ZeroWidth,
    /// The height is zero.
    ZeroHeight,
    /// There are no samples to average.
    ZeroSamples,
    /// Fewer than two threads: one collects, so none would be left to render.
    TooFewThreads,
    /// The frame buffer would have more bytes than memory can address.
    FrameTooLarge,
}

impl RenderConfig {
    /// Bytes in one row: three per pixel.
    pub open spec fn row_len(self) -> int {
        3 * self.width
    }

    /// Bytes in the whole frame.
    pub open spec fn frame_len(self) -> int {
        3 * self.width * self.height
    }

    /// The most rows that are rendered at the same time: one thread is kept
    /// for collecting, and there is never more than one worker per row.
    pub open spec fn concurrency(self) -> int {
        if self.threads - 1 <= self.height {
            self.threads - 1
        } else {
            self.height as int
        }
    }

    /// The smaller of width and height, by which the image is scaled.
    pub open spec fn shorter(self) -> int {
        if self.width <= self.height {
            self.width as int
        } else {
            self.height as int
        }
    }

    /// The first thing that is wrong with the configuration, if anything is.
    pub open spec fn fault(self) -> Option<ConfigError> {
        if self.width == 0 {
            Some(ConfigError::ZeroWidth)
        } else if self.height == 0 {
            Some(ConfigError::ZeroHeight)
        } else if self.samples_per_pixel == 0 {
            Some(ConfigError::ZeroSamples)
        } else if self.threads < 2 {
            Some(ConfigError::TooFewThreads)
        } else if self.frame_len() > usize::MAX {
            Some(ConfigError::FrameTooLarge)
        } else {
            None
        }
    }

    /// A configuration that can be rendered: positive dimensions and sample
    /// count, at least one worker beside the collector, and a frame that fits
    /// in memory.
    pub open spec fn valid(self) -> bool {
        &&& self.width > 0
        &&& self.height > 0
        &&& self.samples_per_pixel > 0
        &&& self.threads >= 2
        &&& self.frame_len() <= usize::MAX
    }

    /// Checks the configuration before any rendering begins.
    pub fn validate(&self) -> (r: Result<(), ConfigError>)
        ensures
            r is Ok <==> self.valid(),
            r == (match self.fault() {
                Some(e) => Err::<(), ConfigError>(e),
                None => Ok(()),
            }),
    {
        if self.width == 0 {
            return Err(ConfigError::ZeroWidth);
        }
        if self.height == 0 {
            return Err(ConfigError::ZeroHeight);
        }
        if self.samples_per_pixel == 0 {
            return Err(ConfigError::ZeroSamples);
        }
        if self.threads < 2 {
            return Err(ConfigError::TooFewThreads);
        }
        assert(self.width * self.height <= 0xffff_ffff * 0xffff_ffff) by (nonlinear_arith)
            requires
                self.width <= 0xffff_ffff,
                self.height <= 0xffff_ffff,
        ;
        let pixels: u64 = (self.width as u64) * (self.height as u64);
        assert(3 * self.width * self.height == 3 * pixels) by (nonlinear_arith)
            requires
                pixels == self.width * self.height,
        ;
        if pixels > (usize::MAX as u64) / 3 {
            return Err(ConfigError::FrameTooLarge);
        }
        Ok(())
    }

    /// Bytes in one row.
    pub fn row_length(&self) -> (n: usize)
        requires
            self.valid(),
        ensures
            n == self.row_len(),
    {
        proof {
            self.lemma_row_fits();
        }
        3 * (self.width as usize)
    }

    /// Bytes in the whole frame.
    pub fn frame_length(&self) -> (n: usize)
        requires
            self.valid(),
        ensures
            n == self.frame_len(),
    {
        proof {
            self.lemma_row_fits();
        }
        3 * (self.width as usize) * (self.height as usize)
    }

    /// The most rows that are rendered at the same time.
    pub fn worker_limit(&self) -> (limit: u32)
        requires
            self.valid(),
        ensures
            limit == self.concurrency(),
            1 <= limit <= self.height,
            limit <= self.threads - 1,
    {
        let workers = self.threads - 1;
        if workers <= self.height {
            workers
        } else {
            self.height
        }
    }

    /// The smaller of width and height, by which the image is scaled.
    pub fn shorter_side(&self) -> (side: u32)
        ensures
            side == self.shorter(),
    {
        if self.width <= self.height {
            self.width
        } else {
            self.height
        }
    }

    /// In a valid configuration a row is no longer than the frame.
    pub proof fn lemma_row_fits(self)
        requires
            self.valid(),
        ensures
            0 < self.row_len() <= self.frame_len() <= usize::MAX,
            self.frame_len() == self.row_len() * self.height,
    {
        assert(3 * self.width <= 3 * self.width * self.height) by (nonlinear_arith)
            requires
                self.height >= 1,
        ;
    }
}

} // verus!
