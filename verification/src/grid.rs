//! Grids of candidate places, in micro-degrees.

use vstd::prelude::*;

verus! {

/// The latitude of the north pole.
pub const WORLD_LAT_MAX: i64 = 90_000_000;

/// The longitude of the date line.
pub const WORLD_LON_MAX: i64 = 180_000_000;

/// A place: latitude and longitude in micro-degrees.
#[derive(Clone, Copy, Debug, PartialEq, Eq, Structural)]
pub struct GridPoint {
    pub lat: i64,
    pub lon: i64,
}

/// A grid: the places from `lat_min` to `lat_max` and from `lon_min` to
/// `lon_max`, `step` apart, starting at the lower bounds. Latitudes beyond
/// the poles are left out; longitudes are taken as they are.
#[derive(Clone, Copy, Debug, PartialEq, Eq, Structural)]
pub struct Grid {
    pub lat_min: i64,
    pub lat_max: i64,
    pub lon_min: i64,
    pub lon_max: i64,
    pub step: i64,
}

/// The number of values from `lo` to `hi`, `step` apart.
pub open spec fn axis_len(lo: int, hi: int, step: int) -> nat {
    if step <= 0 || lo > hi {
        0
    } else {
        ((hi - lo) / step + 1) as nat
    }
}

/// `a + b`, kept within the range of `i64`.
pub open spec fn clamped_sum(a: int, b: int) -> i64 {
    if a + b > i64::MAX {
        i64::MAX
    } else if a + b < i64::MIN {
        i64::MIN
    } else {
        (a + b) as i64
    }
}

/// The grid over the whole world.
pub open spec fn world_grid(step: i64) -> Grid {
    Grid {
        lat_min: (-WORLD_LAT_MAX) as i64,
        lat_max: WORLD_LAT_MAX,
        lon_min: (-WORLD_LON_MAX) as i64,
        lon_max: WORLD_LON_MAX,
        step,
    }
}

/// The grid of the square of half-size `window` around `center`.
pub open spec fn grid_around(center: GridPoint, window: i64, step: i64) -> Grid {
    Grid {
        lat_min: clamped_sum(center.lat as int, -window),
        lat_max: clamped_sum(center.lat as int, window as int),
        lon_min: clamped_sum(center.lon as int, -window),
        lon_max: clamped_sum(center.lon as int, window as int),
        step,
    }
}

/// `a + b`, kept within the range of `i64`.
fn clamp_sum(a: i64, b: i128) -> (r: i64)
    requires
        -0x1_0000_0000_0000_0000 <= b <= 0x1_0000_0000_0000_0000,
    ensures
        r == clamped_sum(a as int, b as int),
{
    let v: i128 = (a as i128) + b;
    if v > i64::MAX as i128 {
        i64::MAX
    } else if v < i64::MIN as i128 {
        i64::MIN
    } else {
        v as i64
    }
}

impl Grid {
    /// The least latitude of the grid.
    pub open spec fn lat_lo(self) -> int {
        if self.lat_min < -WORLD_LAT_MAX {
            -WORLD_LAT_MAX as int
        } else {
            self.lat_min as int
        }
    }

    /// The bound of the latitudes of the grid.
    pub open spec fn lat_hi(self) -> int {
        if self.lat_max > WORLD_LAT_MAX {
            WORLD_LAT_MAX as int
        } else {
            self.lat_max as int
        }
    }

    /// The number of latitudes.
    pub open spec fn rows(self) -> nat {
        axis_len(self.lat_lo(), self.lat_hi(), self.step as int)
    }

    /// The number of longitudes.
    pub open spec fn cols(self) -> nat {
        axis_len(self.lon_min as int, self.lon_max as int, self.step as int)
    }

    /// The number of places.
    pub open spec fn size(self) -> nat {
        self.rows() * self.cols()
    }

    /// Place number `k`: the places are numbered latitude by latitude, and
    /// longitude by longitude within one latitude.
    pub open spec fn at(self, k: int) -> GridPoint {
        GridPoint {
            lat: (self.lat_lo() + (k / self.cols() as int) * self.step) as i64,
            lon: (self.lon_min + (k % self.cols() as int) * self.step) as i64,
        }
    }

    /// The grid over the whole world.
    pub fn world(step: i64) -> (g: Grid)
        ensures
            g == world_grid(step),
    {
        Grid {
            lat_min: -WORLD_LAT_MAX,
            lat_max: WORLD_LAT_MAX,
            lon_min: -WORLD_LON_MAX,
            lon_max: WORLD_LON_MAX,
            step,
        }
    }

    /// The grid of the square of half-size `window` around `center`.
    pub fn around(center: GridPoint, window: i64, step: i64) -> (g: Grid)
        ensures
            g == grid_around(center, window, step),
    {
        Grid {
            lat_min: clamp_sum(center.lat, -(window as i128)),
            lat_max: clamp_sum(center.lat, window as i128),
            lon_min: clamp_sum(center.lon, -(window as i128)),
            lon_max: clamp_sum(center.lon, window as i128),
            step,
        }
    }

    fn dims(&self) -> (r: (u128, u128))
        ensures
            r.0 == self.rows(),
            r.1 == self.cols(),
            r.0 <= 0x1_0000_0000,
            r.1 <= 0x1_0000_0000_0000_0000,
    {
        if self.step <= 0 {
            return (0, 0);
        }
        let lo: i64 = if self.lat_min < -WORLD_LAT_MAX {
            -WORLD_LAT_MAX
        } else {
            self.lat_min
        };
        let hi: i64 = if self.lat_max > WORLD_LAT_MAX {
            WORLD_LAT_MAX
        } else {
            self.lat_max
        };
        let step: u128 = self.step as u128;
        let rows: u128 = if lo > hi {
            0
        } else {
            let span: u128 = ((hi as i128) - (lo as i128)) as u128;
            assert(span / step <= span) by (nonlinear_arith)
                requires
                    step >= 1,
            ;
            span / step + 1
        };
        let cols: u128 = if self.lon_min > self.lon_max {
            0
        } else {
            let span: u128 = ((self.lon_max as i128) - (self.lon_min as i128)) as u128;
            assert(span / step <= span) by (nonlinear_arith)
                requires
                    step >= 1,
            ;
            span / step + 1
        };
        (rows, cols)
    }

    /// The number of places of the grid; `None` where there are more than
    /// can be counted.
    pub fn len(&self) -> (r: Option<usize>)
        ensures
            match r {
                Some(n) => n == self.size(),
                None => self.size() > usize::MAX,
            },
    {
        let (rows, cols) = self.dims();
        assert(rows * cols <= 0x1_0000_0000 * 0x1_0000_0000_0000_0000) by (nonlinear_arith)
            requires
                rows <= 0x1_0000_0000,
                cols <= 0x1_0000_0000_0000_0000,
        ;
        let size: u128 = rows * cols;
        if size > usize::MAX as u128 {
            None
        } else {
            Some(size as usize)
        }
    }

    /// Place number `k` of the grid, if it has so many.
    pub fn point(&self, k: usize) -> (r: Option<GridPoint>)
        ensures
            k < self.size() ==> r == Some(self.at(k as int)),
            k >= self.size() ==> r is None,
    {
        let (rows, cols) = self.dims();
        assert(rows * cols <= 0x1_0000_0000 * 0x1_0000_0000_0000_0000) by (nonlinear_arith)
            requires
                rows <= 0x1_0000_0000,
                cols <= 0x1_0000_0000_0000_0000,
        ;
        if (k as u128) >= rows * cols {
            return None;
        }
        let row: u128 = (k as u128) / cols;
        let col: u128 = (k as u128) % cols;
        let lo: i64 = if self.lat_min < -WORLD_LAT_MAX {
            -WORLD_LAT_MAX
        } else {
            self.lat_min
        };
        proof {
            assert(cols > 0) by (nonlinear_arith)
                requires
                    k < rows * cols,
            ;
            assert(row < rows) by (nonlinear_arith)
                requires
                    row == (k as int) / (cols as int),
                    k < rows * cols,
                    cols > 0,
            ;
            lemma_axis_value(self.lat_lo(), self.lat_hi(), self.step as int, row as int);
            lemma_axis_value(self.lon_min as int, self.lon_max as int, self.step as int, col as int);
        }
        let lat: i128 = (lo as i128) + (row as i128) * (self.step as i128);
        let lon: i128 = (self.lon_min as i128) + (col as i128) * (self.step as i128);
        Some(GridPoint { lat: lat as i64, lon: lon as i64 })
    }
}

/// Value number `i` of an axis lies between the bounds of the axis.
pub proof fn lemma_axis_value(lo: int, hi: int, step: int, i: int)
    requires
        0 <= i < axis_len(lo, hi, step),
    ensures
        lo <= lo + i * step <= hi,
        0 <= i * step <= hi - lo,
{
    assert(0 <= i * step <= hi - lo) by (nonlinear_arith)
        requires
            step > 0,
            lo <= hi,
            0 <= i <= (hi - lo) / step,
    ;
}

/// Every place of a grid lies within the bounds of the grid.
pub proof fn lemma_point_in_bounds(g: Grid, k: int)
    requires
        0 <= k < g.size(),
    ensures
        g.lat_lo() <= g.at(k).lat <= g.lat_hi(),
        g.lon_min <= g.at(k).lon <= g.lon_max,
        -WORLD_LAT_MAX <= g.at(k).lat <= WORLD_LAT_MAX,
{
    let cols = g.cols() as int;
    let rows = g.rows() as int;
    assert(cols > 0 && rows > 0) by (nonlinear_arith)
        requires
            0 <= k < rows * cols,
            rows >= 0,
            cols >= 0,
    ;
    assert(k / cols < rows) by (nonlinear_arith)
        requires
            0 <= k < rows * cols,
            cols > 0,
    ;
    assert(0 <= k / cols && 0 <= k % cols < cols) by (nonlinear_arith)
        requires
            0 <= k,
            cols > 0,
    ;
    lemma_axis_value(g.lat_lo(), g.lat_hi(), g.step as int, k / cols);
    lemma_axis_value(g.lon_min as int, g.lon_max as int, g.step as int, k % cols);
}

} // verus!
