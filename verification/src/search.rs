//! The grid search: the candidate of a grid that fits the observations best.

use vstd::prelude::*;
use crate::grid::{world_grid, Grid};
use crate::solver::{
    best_bias, candidate_sse, objective, stored, EndpointObs, MAX_OBSERVATIONS,
};

verus! {

/// A candidate place with the objective and the bias that it was fitted
/// with.
#[derive(Clone, Copy, Debug, PartialEq, Eq)]
pub struct Candidate {
    pub lat: i64,
    pub lon: i64,
    pub sse: u128,
    pub bias_ns: u64,
}

/// Whether a table of distances has one row for each of `points` places and
/// in each row one distance for each of `width` endpoints.
pub open spec fn table_fits(table: Seq<Vec<u32>>, points: nat, width: nat) -> bool {
    table.len() == points && forall|k: int|
        0 <= k < table.len() ==> (#[trigger] table[k])@.len() == width
}

/// Checks the shape of a table of distances.
pub fn check_table(table: &[Vec<u32>], points: usize, width: usize) -> (ok: bool)
    ensures
        ok == table_fits(table@, points as nat, width as nat),
{
    if table.len() != points {
        return false;
    }
    let mut k: usize = 0;
    while k < table.len()
        invariant
            k <= table@.len(),
            forall|j: int| 0 <= j < k ==> (#[trigger] table@[j])@.len() == width,
        decreases table@.len() - k,
    {
        if table[k].len() != width {
            return false;
        }
        k += 1;
    }
    true
}

/// Whether a grid can be searched with a table of distances: the speed is
/// positive, the observations are not too many, and the table has one row for
/// each place of the grid and one distance for each observation.
pub open spec fn searchable(
    obs: Seq<EndpointObs>,
    speed_m_s: u64,
    grid: Grid,
    table: Seq<Vec<u32>>,
) -> bool {
    speed_m_s > 0 && obs.len() <= MAX_OBSERVATIONS && table_fits(table, grid.size(), obs.len())
}

/// The objective at place `k`, as it is stored.
pub open spec fn sse_at(obs: Seq<EndpointObs>, table: Seq<Vec<u32>>, speed_m_s: u64, k: int) -> u128 {
    stored(candidate_sse(obs, table[k]@, speed_m_s))
}

/// The number of the best of the first `n` places: the first among those
/// with the least objective.
pub open spec fn best_index(
    obs: Seq<EndpointObs>,
    table: Seq<Vec<u32>>,
    speed_m_s: u64,
    n: nat,
) -> int
    decreases n,
{
    if n <= 1 {
        0
    } else {
        let prev = best_index(obs, table, speed_m_s, (n - 1) as nat);
        if sse_at(obs, table, speed_m_s, n - 1) < sse_at(obs, table, speed_m_s, prev) {
            n - 1
        } else {
            prev
        }
    }
}

/// The best of the first `n` places has the least objective among them, and
/// every place before it has a greater one.
pub proof fn lemma_best_index(obs: Seq<EndpointObs>, table: Seq<Vec<u32>>, speed_m_s: u64, n: nat)
    requires
        n > 0,
    ensures
        0 <= best_index(obs, table, speed_m_s, n) < n,
        forall|j: int|
            0 <= j < n ==> sse_at(obs, table, speed_m_s, best_index(obs, table, speed_m_s, n))
                <= #[trigger] sse_at(obs, table, speed_m_s, j),
        forall|j: int|
            0 <= j < best_index(obs, table, speed_m_s, n) ==> #[trigger] sse_at(
                obs,
                table,
                speed_m_s,
                j,
            ) > sse_at(obs, table, speed_m_s, best_index(obs, table, speed_m_s, n)),
    decreases n,
{
    if n > 1 {
        lemma_best_index(obs, table, speed_m_s, (n - 1) as nat);
    }
}

/// Place `k` of a grid as a candidate.
pub open spec fn candidate_at(
    obs: Seq<EndpointObs>,
    speed_m_s: u64,
    grid: Grid,
    table: Seq<Vec<u32>>,
    k: int,
) -> Candidate {
    Candidate {
        lat: grid.at(k).lat,
        lon: grid.at(k).lon,
        sse: sse_at(obs, table, speed_m_s, k),
        bias_ns: best_bias(obs, table[k]@, speed_m_s) as u64,
    }
}

/// What a search finds: the best place of the grid; nothing where the grid
/// cannot be searched or has no place.
pub open spec fn found(
    obs: Seq<EndpointObs>,
    speed_m_s: u64,
    grid: Grid,
    table: Seq<Vec<u32>>,
) -> Option<Candidate> {
    if searchable(obs, speed_m_s, grid, table) && grid.size() > 0 {
        Some(
            candidate_at(
                obs,
                speed_m_s,
                grid,
                table,
                best_index(obs, table, speed_m_s, grid.size()),
            ),
        )
    } else {
        None
    }
}

/// Searches a grid for the place that fits the observations best.
/// `table[k][i]` is the great-circle distance from place `k` of the grid to
/// the endpoint of observation `i`. Among places that fit equally well the
/// first wins.
pub fn grid_search_bounds(
    obs: &[EndpointObs],
    speed_m_s: u64,
    grid: &Grid,
    table: &[Vec<u32>],
) -> (r: Option<Candidate>)
    ensures
        r == found(obs@, speed_m_s, *grid, table@),
{
    if speed_m_s == 0 || obs.len() > MAX_OBSERVATIONS {
        return None;
    }
    let rows: usize = table.len();
    let n: usize = match grid.len() {
        Some(n) => n,
        None => {
            return None;
        },
    };
    if n == 0 || rows != n || !check_table(table, n, obs.len()) {
        return None;
    }
    let (sse0, bias0) = objective(obs, table[0].as_slice(), speed_m_s);
    let first = match grid.point(0) {
        Some(p) => p,
        None => {
            return None;
        },
    };
    let mut best = Candidate { lat: first.lat, lon: first.lon, sse: sse0, bias_ns: bias0 };
    let mut k: usize = 1;
    while k < n
        invariant
            1 <= k <= n == grid.size() == table@.len(),
            searchable(obs@, speed_m_s, *grid, table@),
            best == candidate_at(
                obs@,
                speed_m_s,
                *grid,
                table@,
                best_index(obs@, table@, speed_m_s, k as nat),
            ),
        decreases n - k,
    {
        let (sse, bias) = objective(obs, table[k].as_slice(), speed_m_s);
        if sse < best.sse {
            match grid.point(k) {
                Some(p) => {
                    best = Candidate { lat: p.lat, lon: p.lon, sse, bias_ns: bias };
                },
                None => {},
            }
        }
        k += 1;
    }
    Some(best)
}

/// Searches the grid over the whole world.
pub fn grid_search(obs: &[EndpointObs], speed_m_s: u64, step: i64, table: &[Vec<u32>]) -> (r:
    Option<Candidate>)
    ensures
        r == found(obs@, speed_m_s, world_grid(step), table@),
{
    let grid = Grid::world(step);
    grid_search_bounds(obs, speed_m_s, &grid, table)
}

} // verus!
