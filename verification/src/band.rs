//! The fit band: the places around the estimate that fit the observations
//! nearly as well as the estimate does.

use vstd::prelude::*;
use crate::geo::PPM;
use crate::grid::{Grid, GridPoint};
use crate::search::{check_table, searchable, sse_at};
use crate::solver::{objective, stored, EndpointObs, MAX_OBSERVATIONS};

verus! {

/// What the objective of a place of the band may exceed that of the
/// estimate by at the least: one billionth of a square millisecond.
pub const SSE_EPSILON: u128 = 1_000_000_000;

/// The fit band: the distance from the estimate to its farthest place in
/// metres, the objective up to which a place belongs to it, the number of its
/// places, and the least box of latitudes and longitudes that holds them.
#[derive(Clone, Copy, Debug, PartialEq, Eq)]
pub struct FitBand {
    pub radius_m: u32,
    pub sse_threshold: u128,
    pub points: usize,
    pub min_lat: i64,
    pub max_lat: i64,
    pub min_lon: i64,
    pub max_lon: i64,
}

/// The objective up to which a place belongs to the band of an estimate
/// whose objective is `best_sse`: the larger of `best_sse` raised by
/// `factor_ppm` parts per million and `best_sse` raised by `SSE_EPSILON`.
pub open spec fn band_threshold(best_sse: u128, factor_ppm: u64) -> u128 {
    let scaled = best_sse + best_sse * factor_ppm / PPM as int;
    let shifted = best_sse + SSE_EPSILON;
    stored((if scaled > shifted {
        scaled
    } else {
        shifted
    }) as nat)
}

/// Computes the threshold of a band.
pub fn threshold(best_sse: u128, factor_ppm: u64) -> (t: u128)
    ensures
        t == band_threshold(best_sse, factor_ppm),
        t >= best_sse,
{
    let q: u128 = best_sse / 1_000_000;
    let r: u128 = best_sse % 1_000_000;
    let f: u128 = factor_ppm as u128;
    assert(r * f <= 1_000_000 * 0xFFFF_FFFF_FFFF_FFFF) by (nonlinear_arith)
        requires
            r < 1_000_000,
            f <= 0xFFFF_FFFF_FFFF_FFFF,
    ;
    let low: u128 = r * f / 1_000_000;
    proof {
        let qf = (q as int) * (f as int);
        let rf = (r as int) * (f as int);
        assert((best_sse as int) * (f as int) == 1_000_000 * qf + rf) by (nonlinear_arith)
            requires
                best_sse == 1_000_000 * q + r,
                qf == q * f,
                rf == r * f,
        ;
        assert((1_000_000 * qf + rf) / 1_000_000 == qf + rf / 1_000_000) by (nonlinear_arith)
            requires
                rf >= 0,
        ;
        assert(qf >= 0) by (nonlinear_arith)
            requires
                qf == q * f,
                q >= 0,
                f >= 0,
        ;
    }
    let raise: Option<u128> = match q.checked_mul(f) {
        Some(high) => high.checked_add(low),
        None => None,
    };
    let scaled: Option<u128> = match raise {
        Some(v) => best_sse.checked_add(v),
        None => None,
    };
    let shifted: Option<u128> = best_sse.checked_add(SSE_EPSILON);
    match (scaled, shifted) {
        (Some(a), Some(b)) => if a > b {
            a
        } else {
            b
        },
        _ => u128::MAX,
    }
}

/// What a scan has gathered of a band: the number of its places, the
/// greatest of their distances from the estimate, and the least box that
/// holds them.
pub struct BandSpan {
    pub points: nat,
    pub radius_m: u32,
    pub min_lat: i64,
    pub max_lat: i64,
    pub min_lon: i64,
    pub max_lon: i64,
}

/// The span of one place at the distance `dist_m` from the estimate.
pub open spec fn span_of(p: GridPoint, dist_m: u32) -> BandSpan {
    BandSpan {
        points: 1,
        radius_m: dist_m,
        min_lat: p.lat,
        max_lat: p.lat,
        min_lon: p.lon,
        max_lon: p.lon,
    }
}

/// A span widened by a place at the distance `dist_m` from the estimate.
pub open spec fn widened(span: BandSpan, p: GridPoint, dist_m: u32) -> BandSpan {
    BandSpan {
        points: span.points + 1,
        radius_m: if dist_m > span.radius_m {
            dist_m
        } else {
            span.radius_m
        },
        min_lat: if p.lat < span.min_lat {
            p.lat
        } else {
            span.min_lat
        },
        max_lat: if p.lat > span.max_lat {
            p.lat
        } else {
            span.max_lat
        },
        min_lon: if p.lon < span.min_lon {
            p.lon
        } else {
            span.min_lon
        },
        max_lon: if p.lon > span.max_lon {
            p.lon
        } else {
            span.max_lon
        },
    }
}

/// Whether place `k` belongs to the band: its objective does not exceed the
/// threshold.
pub open spec fn in_band(
    obs: Seq<EndpointObs>,
    speed_m_s: u64,
    sse_threshold: u128,
    table: Seq<Vec<u32>>,
    k: int,
) -> bool {
    sse_at(obs, table, speed_m_s, k) <= sse_threshold
}

/// The span of the band among the first `n` places of a grid; none where
/// none of them belongs to the band.
pub open spec fn span_upto(
    obs: Seq<EndpointObs>,
    speed_m_s: u64,
    sse_threshold: u128,
    grid: Grid,
    table: Seq<Vec<u32>>,
    center_dist_m: Seq<u32>,
    n: nat,
) -> Option<BandSpan>
    decreases n,
{
    if n == 0 {
        None
    } else {
        let prev = span_upto(
            obs,
            speed_m_s,
            sse_threshold,
            grid,
            table,
            center_dist_m,
            (n - 1) as nat,
        );
        if in_band(obs, speed_m_s, sse_threshold, table, n - 1) {
            match prev {
                Some(span) => Some(widened(span, grid.at(n - 1), center_dist_m[n - 1])),
                None => Some(span_of(grid.at(n - 1), center_dist_m[n - 1])),
            }
        } else {
            prev
        }
    }
}

/// The band that a scan of a grid finds; none where the grid cannot be
/// scanned, where the distances to the estimate are not one for each place,
/// or where no place belongs to the band.
pub open spec fn band_of(
    obs: Seq<EndpointObs>,
    speed_m_s: u64,
    sse_threshold: u128,
    grid: Grid,
    table: Seq<Vec<u32>>,
    center_dist_m: Seq<u32>,
) -> Option<FitBand> {
    if !searchable(obs, speed_m_s, grid, table) || center_dist_m.len() != grid.size() {
        None
    } else {
        match span_upto(
            obs,
            speed_m_s,
            sse_threshold,
            grid,
            table,
            center_dist_m,
            grid.size(),
        ) {
            None => None,
            Some(span) => Some(
                FitBand {
                    radius_m: span.radius_m,
                    sse_threshold,
                    points: span.points as usize,
                    min_lat: span.min_lat,
                    max_lat: span.max_lat,
                    min_lon: span.min_lon,
                    max_lon: span.max_lon,
                },
            ),
        }
    }
}

/// There is a span exactly where a place belongs to the band. It counts no
/// more places than were scanned and at least one; its box holds every place
/// of the band and each of its bounds is that of one of them; its radius is
/// the distance of one of them from the estimate, and none is farther.
pub proof fn lemma_span_is_bounding_box(
    obs: Seq<EndpointObs>,
    speed_m_s: u64,
    sse_threshold: u128,
    grid: Grid,
    table: Seq<Vec<u32>>,
    center_dist_m: Seq<u32>,
    n: nat,
)
    ensures
        match span_upto(obs, speed_m_s, sse_threshold, grid, table, center_dist_m, n) {
            None => forall|k: int|
                0 <= k < n ==> !#[trigger] in_band(obs, speed_m_s, sse_threshold, table, k),
            Some(span) => {
                &&& 1 <= span.points <= n
                &&& forall|k: int|
                    0 <= k < n && #[trigger] in_band(obs, speed_m_s, sse_threshold, table, k) ==> {
                        &&& span.min_lat <= grid.at(k).lat <= span.max_lat
                        &&& span.min_lon <= grid.at(k).lon <= span.max_lon
                        &&& center_dist_m[k] <= span.radius_m
                    }
                &&& exists|k: int|
                    0 <= k < n && #[trigger] in_band(obs, speed_m_s, sse_threshold, table, k)
                        && grid.at(k).lat == span.min_lat
                &&& exists|k: int|
                    0 <= k < n && #[trigger] in_band(obs, speed_m_s, sse_threshold, table, k)
                        && grid.at(k).lat == span.max_lat
                &&& exists|k: int|
                    0 <= k < n && #[trigger] in_band(obs, speed_m_s, sse_threshold, table, k)
                        && grid.at(k).lon == span.min_lon
                &&& exists|k: int|
                    0 <= k < n && #[trigger] in_band(obs, speed_m_s, sse_threshold, table, k)
                        && grid.at(k).lon == span.max_lon
                &&& exists|k: int|
                    0 <= k < n && #[trigger] in_band(obs, speed_m_s, sse_threshold, table, k)
                        && center_dist_m[k] == span.radius_m
            },
        },
    decreases n,
{
    if n > 0 {
        let m = (n - 1) as nat;
        lemma_span_is_bounding_box(obs, speed_m_s, sse_threshold, grid, table, center_dist_m, m);
        let prev = span_upto(obs, speed_m_s, sse_threshold, grid, table, center_dist_m, m);
        let now = span_upto(obs, speed_m_s, sse_threshold, grid, table, center_dist_m, n);
        if now is Some {
            let span = now->0;
            let last = n - 1;
            let joins = in_band(obs, speed_m_s, sse_threshold, table, last);
            if prev is Some {
                let old = prev->0;
                let a = choose|k: int|
                    0 <= k < m && #[trigger] in_band(obs, speed_m_s, sse_threshold, table, k)
                        && grid.at(k).lat == old.min_lat;
                let b = choose|k: int|
                    0 <= k < m && #[trigger] in_band(obs, speed_m_s, sse_threshold, table, k)
                        && grid.at(k).lat == old.max_lat;
                let c = choose|k: int|
                    0 <= k < m && #[trigger] in_band(obs, speed_m_s, sse_threshold, table, k)
                        && grid.at(k).lon == old.min_lon;
                let d = choose|k: int|
                    0 <= k < m && #[trigger] in_band(obs, speed_m_s, sse_threshold, table, k)
                        && grid.at(k).lon == old.max_lon;
                let e = choose|k: int|
                    0 <= k < m && #[trigger] in_band(obs, speed_m_s, sse_threshold, table, k)
                        && center_dist_m[k] == old.radius_m;
                let a2 = if joins && grid.at(last).lat < old.min_lat { last } else { a };
                let b2 = if joins && grid.at(last).lat > old.max_lat { last } else { b };
                let c2 = if joins && grid.at(last).lon < old.min_lon { last } else { c };
                let d2 = if joins && grid.at(last).lon > old.max_lon { last } else { d };
                let e2 = if joins && center_dist_m[last] > old.radius_m { last } else { e };
                assert(in_band(obs, speed_m_s, sse_threshold, table, a2) && grid.at(a2).lat
                    == span.min_lat);
                assert(in_band(obs, speed_m_s, sse_threshold, table, b2) && grid.at(b2).lat
                    == span.max_lat);
                assert(in_band(obs, speed_m_s, sse_threshold, table, c2) && grid.at(c2).lon
                    == span.min_lon);
                assert(in_band(obs, speed_m_s, sse_threshold, table, d2) && grid.at(d2).lon
                    == span.max_lon);
                assert(in_band(obs, speed_m_s, sse_threshold, table, e2) && center_dist_m[e2]
                    == span.radius_m);
            } else {
                assert(in_band(obs, speed_m_s, sse_threshold, table, last));
                assert(span == span_of(grid.at(last), center_dist_m[last]));
            }
        }
    }
}

/// Fits the band of an estimate by a scan of a grid around it.
///
/// `best_sse` is the objective of the estimate. `table[k][i]` is the
/// great-circle distance from place `k` of the grid to the endpoint of
/// observation `i`, and `center_dist_m[k]` that from place `k` to the
/// estimate.
pub fn fit_band(
    obs: &[EndpointObs],
    speed_m_s: u64,
    best_sse: u128,
    grid: &Grid,
    table: &[Vec<u32>],
    center_dist_m: &[u32],
    factor_ppm: u64,
) -> (r: Option<FitBand>)
    ensures
        r == band_of(
            obs@,
            speed_m_s,
            band_threshold(best_sse, factor_ppm),
            *grid,
            table@,
            center_dist_m@,
        ),
{
    if speed_m_s == 0 || obs.len() > MAX_OBSERVATIONS {
        return None;
    }
    let rows: usize = table.len();
    let n: usize = match grid.len() {
        Some(n) => n,
        None => {
            return None;
        },
    };
    if rows != n || !check_table(table, n, obs.len()) || center_dist_m.len() != n {
        return None;
    }
    let limit: u128 = threshold(best_sse, factor_ppm);
    let mut points: usize = 0;
    let mut radius_m: u32 = 0;
    let mut min_lat: i64 = 0;
    let mut max_lat: i64 = 0;
    let mut min_lon: i64 = 0;
    let mut max_lon: i64 = 0;
    let mut k: usize = 0;
    while k < n
        invariant
            k <= n == grid.size() == table@.len() == center_dist_m@.len(),
            searchable(obs@, speed_m_s, *grid, table@),
            points <= k,
            points == 0 ==> span_upto(
                obs@,
                speed_m_s,
                limit,
                *grid,
                table@,
                center_dist_m@,
                k as nat,
            ) is None,
            points > 0 ==> span_upto(
                obs@,
                speed_m_s,
                limit,
                *grid,
                table@,
                center_dist_m@,
                k as nat,
            ) == Some(
                BandSpan { points: points as nat, radius_m, min_lat, max_lat, min_lon, max_lon },
            ),
        decreases n - k,
    {
        let (sse, _) = objective(obs, table[k].as_slice(), speed_m_s);
        if sse <= limit {
            match grid.point(k) {
                Some(p) => {
                    let d: u32 = center_dist_m[k];
                    if points == 0 {
                        radius_m = d;
                        min_lat = p.lat;
                        max_lat = p.lat;
                        min_lon = p.lon;
                        max_lon = p.lon;
                    } else {
                        if d > radius_m {
                            radius_m = d;
                        }
                        if p.lat < min_lat {
                            min_lat = p.lat;
                        }
                        if p.lat > max_lat {
                            max_lat = p.lat;
                        }
                        if p.lon < min_lon {
                            min_lon = p.lon;
                        }
                        if p.lon > max_lon {
                            max_lon = p.lon;
                        }
                    }
                    points = points + 1;
                },
                None => {},
            }
        }
        k += 1;
    }
    if points == 0 {
        return None;
    }
    Some(FitBand { radius_m, sse_threshold: limit, points, min_lat, max_lat, min_lon, max_lon })
}

} // verus!
