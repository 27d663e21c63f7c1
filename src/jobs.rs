//! How a channel copy is cut into chunks of pixels and waves of chunks, so
//! that workers can copy disjoint pixel ranges side by side.
use vstd::prelude::*;

verus! {

/// Rows per chunk.
pub const CHUNK_ROWS: usize = 32;

/// Relies on `num_cpus::get`: the number of logical CPUs this process may use,
/// which its documentation says is always at least 1.
#[verifier::external_body]
fn logical_cores() -> (r: usize)
    ensures
        r >= 1,
{
    num_cpus::get()
}

/// Pixels per chunk for a canvas `width` pixels wide: `CHUNK_ROWS` rows,
/// at least one pixel, at most what a `usize` holds.
pub open spec fn chunk_size_for(width: u32) -> int {
    if width == 0 {
        1
    } else if width * CHUNK_ROWS > usize::MAX {
        usize::MAX as int
    } else {
        width * CHUNK_ROWS
    }
}

/// Layout of the copy of `pixels` pixels: chunks of `chunk_pixels` contiguous
/// pixels (the last one shorter), handed out `workers` at a time.
#[derive(Clone, Copy, Debug, PartialEq, Eq, Structural)]
pub struct JobLayout {
    pub pixels: usize,
    pub chunk_pixels: usize,
    pub chunk_count: usize,
    pub workers: usize,
}

impl JobLayout {
    /// Chunks are non-empty, there is at least one worker, and the chunks
    /// exactly cover the pixels.
    pub open spec fn wf(self) -> bool {
        &&& self.chunk_pixels >= 1
        &&& self.workers >= 1
        &&& self.chunk_count * self.chunk_pixels >= self.pixels
        &&& (self.chunk_count == 0 || (self.chunk_count - 1) * self.chunk_pixels < self.pixels)
    }

    /// First pixel of chunk `k`.
    pub open spec fn start_of(self, k: int) -> int {
        k * self.chunk_pixels
    }

    /// One past the last pixel of chunk `k`.
    pub open spec fn end_of(self, k: int) -> int {
        if k + 1 >= self.chunk_count {
            self.pixels as int
        } else {
            (k + 1) * self.chunk_pixels
        }
    }

    /// Number of waves: chunks handed out `workers` at a time.
    pub open spec fn waves(self) -> int {
        (self.chunk_count + self.workers - 1) / self.workers as int
    }

    /// Layout for a canvas `width` pixels wide with `pixels` pixels in all:
    /// chunks of `CHUNK_ROWS` rows (at least one pixel), `workers` per wave.
    pub fn new(width: u32, pixels: usize, workers: usize) -> (r: JobLayout)
        requires
            workers >= 1,
        ensures
            r.wf(),
            r.pixels == pixels,
            r.workers == workers,
            r.chunk_pixels == chunk_size_for(width),
    {
        let w = width as usize;
        let chunk_pixels: usize = if w == 0 {
            1
        } else if w > usize::MAX / CHUNK_ROWS {
            usize::MAX
        } else {
            w * CHUNK_ROWS
        };
        let whole = pixels / chunk_pixels;
        proof {
            assert(whole <= pixels) by (nonlinear_arith)
                requires
                    whole == pixels / chunk_pixels,
                    chunk_pixels >= 1,
            ;
            assert(pixels % chunk_pixels != 0 ==> whole < pixels) by (nonlinear_arith)
                requires
                    whole == pixels / chunk_pixels,
                    chunk_pixels >= 1,
            ;
        }
        let chunk_count: usize = if pixels % chunk_pixels == 0 {
            whole
        } else {
            whole + 1
        };
        proof {
            assert(pixels == whole * chunk_pixels + pixels % chunk_pixels) by (nonlinear_arith)
                requires
                    whole == pixels / chunk_pixels,
                    chunk_pixels >= 1,
            ;
            assert(pixels % chunk_pixels < chunk_pixels) by (nonlinear_arith)
                requires
                    chunk_pixels >= 1,
            ;
            assert((whole + 1) * chunk_pixels == whole * chunk_pixels + chunk_pixels)
                by (nonlinear_arith);
            if whole >= 1 {
                assert((whole - 1) * chunk_pixels == whole * chunk_pixels - chunk_pixels)
                    by (nonlinear_arith);
            }
        }
        JobLayout { pixels, chunk_pixels, chunk_count, workers }
    }

    /// Layout for a canvas `width` pixels wide with `pixels` pixels in all,
    /// with one worker per logical CPU.
    pub fn for_canvas(width: u32, pixels: usize) -> (r: JobLayout)
        ensures
            r.wf(),
            r.pixels == pixels,
            r.workers >= 1,
            r.chunk_pixels == chunk_size_for(width),
    {
        let workers = logical_cores();
        JobLayout::new(width, pixels, workers)
    }

    /// Pixel range `[start, end)` of chunk `k`. Consecutive chunks meet, the
    /// first starts at 0 and the last ends at `pixels`, and none is empty.
    pub fn chunk(&self, k: usize) -> (r: (usize, usize))
        requires
            self.wf(),
            k < self.chunk_count,
        ensures
            r.0 == self.start_of(k as int),
            r.1 == self.end_of(k as int),
            r.0 < r.1 <= self.pixels,
    {
        proof {
            assert(k * self.chunk_pixels <= (self.chunk_count - 1) * self.chunk_pixels)
                by (nonlinear_arith)
                requires
                    k <= self.chunk_count - 1,
            ;
            assert((k + 1) * self.chunk_pixels == k * self.chunk_pixels + self.chunk_pixels)
                by (nonlinear_arith);
            if k + 1 < self.chunk_count {
                assert((k + 1) * self.chunk_pixels <= (self.chunk_count - 1) * self.chunk_pixels)
                    by (nonlinear_arith)
                    requires
                        k + 1 <= self.chunk_count - 1,
                ;
            }
        }
        let start = k * self.chunk_pixels;
        let end = if k + 1 >= self.chunk_count {
            self.pixels
        } else {
            start + self.chunk_pixels
        };
        (start, end)
    }

    /// Number of waves needed to hand out every chunk.
    pub fn wave_count(&self) -> (r: usize)
        requires
            self.wf(),
        ensures
            r == self.waves(),
            r * self.workers >= self.chunk_count,
    {
        let full = self.chunk_count / self.workers;
        proof {
            let (c, w) = (self.chunk_count as int, self.workers as int);
            assert(c % w != 0 ==> full < c) by (nonlinear_arith)
                requires
                    full == c / w,
                    w >= 1,
                    c >= 0,
            ;
        }
        let r = if self.chunk_count % self.workers == 0 {
            full
        } else {
            full + 1
        };
        proof {
            let (c, w) = (self.chunk_count as int, self.workers as int);
            assert(c == full * w + c % w) by (nonlinear_arith)
                requires
                    full == c / w,
                    w >= 1,
            ;
            assert(0 <= c % w < w) by (nonlinear_arith)
                requires
                    w >= 1,
            ;
            assert((full + 1) * w == full * w + w) by (nonlinear_arith);
            assert((c + w - 1) / w == r) by (nonlinear_arith)
                requires
                    c == full * w + c % w,
                    0 <= c % w < w,
                    r == if c % w == 0 {
                        full as int
                    } else {
                        full + 1
                    },
                    w >= 1,
            ;
        }
        r
    }

    /// Chunks `[first, last)` of wave `w`: at most `workers` of them,
    /// consecutive waves meet, and the last wave ends at the last chunk.
    pub fn wave(&self, w: usize) -> (r: (usize, usize))
        requires
            self.wf(),
            w < self.waves(),
        ensures
            r.0 == w * self.workers,
            r.1 == if (w + 1) * self.workers >= self.chunk_count {
                self.chunk_count as int
            } else {
                (w + 1) * self.workers
            },
            r.0 < r.1 <= self.chunk_count,
    {
        let total = self.wave_count();
        proof {
            let (c, k) = (self.chunk_count as int, self.workers as int);
            assert(w * k < c) by (nonlinear_arith)
                requires
                    w < (c + k - 1) / k,
                    k >= 1,
                    c >= 0,
            ;
            assert((w + 1) * k == w * k + k) by (nonlinear_arith);
        }
        let first = w * self.workers;
        let last = if self.chunk_count - first <= self.workers {
            self.chunk_count
        } else {
            first + self.workers
        };
        (first, last)
    }
}

} // verus!
