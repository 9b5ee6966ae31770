//! The location estimate: a coarse search over the world, a refined search
//! around its best place, and the fit band around the refined place.
//!
//! Great-circle distances are measured by the caller. The solver says which
//! grid it needs them for; the caller answers with one row of distances for
//! each place of the grid, and the solver moves on.

use vstd::prelude::*;
use crate::band::{band_of, band_threshold, fit_band, FitBand};
use crate::calibration::Calibration;
use crate::config::Endpoint;
use crate::grid::{clamped_sum, grid_around, world_grid, Grid, GridPoint};
use crate::search::{found, grid_search_bounds, Candidate};
use crate::solver::{observations, observed, EndpointObs, MIN_OBSERVATIONS};
use crate::stats::StatsEntry;

verus! {

/// The refined steps that the refined window reaches at least to each side
/// of the coarse place.
pub const REFINE_WINDOW_MULT: i64 = 4;

/// What an estimate is computed with: the signal speed in metres per
/// second; the steps of the coarse and of the refined grid in micro-degrees;
/// how far the objective of a place of the band may exceed that of the
/// estimate, in parts per million; and the least half-size of the band's
/// window in micro-degrees.
#[derive(Clone, Copy, Debug, PartialEq, Eq)]
pub struct SolverParams {
    pub speed_m_s: u64,
    pub grid_step: i64,
    pub refine_step: i64,
    pub band_factor_ppm: u64,
    pub band_window: i64,
}

/// An estimate: the place, the bias and the objective it was fitted with,
/// the number of observations used, and the fit band.
#[derive(Clone, Copy, Debug, PartialEq, Eq)]
pub struct Estimate {
    pub lat: i64,
    pub lon: i64,
    pub bias_ns: u64,
    pub sse: u128,
    pub points: usize,
    pub band: Option<FitBand>,
}

/// Where a solver stands.
#[derive(Clone, Copy, Debug, PartialEq, Eq)]
pub enum Stage {
    /// It waits for the distances of the coarse grid.
    Coarse,
    /// It waits for the distances of the refined grid.
    Refine,
    /// It waits for the distances of the band's grid; the refined place is
    /// known.
    Band(Candidate),
    /// It has ended with this estimate.
    Done(Option<Estimate>),
}

/// What the solver asks of its caller next.
#[derive(Clone, Copy, Debug, PartialEq, Eq)]
pub enum SolverStep {
    /// Measure the distances from each place of `grid` to the endpoint of
    /// each observation, and to `center` where one is given.
    Measure { grid: Grid, center: Option<GridPoint> },
    /// The estimate, or none.
    Done(Option<Estimate>),
}

/// A solver at work on one set of observations.
pub struct Solver {
    pub obs: Vec<EndpointObs>,
    pub params: SolverParams,
    pub stage: Stage,
    pub grid: Grid,
}

/// The half-size of the refined window: the coarse step, or
/// `REFINE_WINDOW_MULT` refined steps where that is more.
pub open spec fn refine_window(params: SolverParams) -> i64 {
    let reach = clamped_sum(0, params.refine_step * REFINE_WINDOW_MULT);
    if params.grid_step > reach {
        params.grid_step
    } else {
        reach
    }
}

/// The half-size of the band's window: the one asked for, or the refined
/// window where that is larger.
pub open spec fn band_window(params: SolverParams) -> i64 {
    if params.band_window > refine_window(params) {
        params.band_window
    } else {
        refine_window(params)
    }
}

/// The stage that a solver starts in.
pub open spec fn first_stage(obs: Seq<EndpointObs>) -> Stage {
    if obs.len() < MIN_OBSERVATIONS {
        Stage::Done(None)
    } else {
        Stage::Coarse
    }
}

/// The estimate that closes the band stage.
pub open spec fn estimate_of(obs: Seq<EndpointObs>, best: Candidate, band: Option<FitBand>) -> Estimate {
    Estimate {
        lat: best.lat,
        lon: best.lon,
        bias_ns: best.bias_ns,
        sse: best.sse,
        points: obs.len() as usize,
        band,
    }
}

/// The stage that follows `stage` on the distances given.
pub open spec fn next_stage(
    obs: Seq<EndpointObs>,
    params: SolverParams,
    stage: Stage,
    grid: Grid,
    table: Seq<Vec<u32>>,
    center_dist_m: Seq<u32>,
) -> Stage {
    match stage {
        Stage::Coarse => match found(obs, params.speed_m_s, grid, table) {
            Some(_) => Stage::Refine,
            None => Stage::Done(None),
        },
        Stage::Refine => match found(obs, params.speed_m_s, grid, table) {
            Some(best) => Stage::Band(best),
            None => Stage::Done(None),
        },
        Stage::Band(best) => Stage::Done(
            Some(
                estimate_of(
                    obs,
                    best,
                    band_of(
                        obs,
                        params.speed_m_s,
                        band_threshold(best.sse, params.band_factor_ppm),
                        grid,
                        table,
                        center_dist_m,
                    ),
                ),
            ),
        ),
        Stage::Done(e) => Stage::Done(e),
    }
}

/// The grid that follows `grid` on the distances given.
pub open spec fn next_grid(
    obs: Seq<EndpointObs>,
    params: SolverParams,
    stage: Stage,
    grid: Grid,
    table: Seq<Vec<u32>>,
) -> Grid {
    match stage {
        Stage::Coarse => match found(obs, params.speed_m_s, grid, table) {
            Some(best) => grid_around(
                GridPoint { lat: best.lat, lon: best.lon },
                refine_window(params),
                params.refine_step,
            ),
            None => grid,
        },
        Stage::Refine => match found(obs, params.speed_m_s, grid, table) {
            Some(best) => grid_around(
                GridPoint { lat: best.lat, lon: best.lon },
                band_window(params),
                params.refine_step,
            ),
            None => grid,
        },
        _ => grid,
    }
}

/// What a solver at `stage` asks of its caller.
pub open spec fn request(stage: Stage, grid: Grid) -> SolverStep {
    match stage {
        Stage::Coarse => SolverStep::Measure { grid, center: None },
        Stage::Refine => SolverStep::Measure { grid, center: None },
        Stage::Band(best) => SolverStep::Measure {
            grid,
            center: Some(GridPoint { lat: best.lat, lon: best.lon }),
        },
        Stage::Done(e) => SolverStep::Done(e),
    }
}

fn window_of(params: &SolverParams) -> (w: i64)
    ensures
        w == refine_window(*params),
{
    let product: i128 = (params.refine_step as i128) * 4;
    let reach: i64 = if product > i64::MAX as i128 {
        i64::MAX
    } else if product < i64::MIN as i128 {
        i64::MIN
    } else {
        product as i64
    };
    if params.grid_step > reach {
        params.grid_step
    } else {
        reach
    }
}

impl Solver {
    /// What the solver asks of its caller at present.
    pub open spec fn pending(&self) -> SolverStep {
        request(self.stage, self.grid)
    }

    /// Starts a solver on observations. With fewer than three observations
    /// it ends at once, without an estimate; else it asks for the distances
    /// of the coarse grid over the world.
    pub fn start(obs: Vec<EndpointObs>, params: SolverParams) -> (r: (Solver, SolverStep))
        ensures
            r.0.obs@ == obs@,
            r.0.params == params,
            r.0.stage == first_stage(obs@),
            r.0.grid == world_grid(params.grid_step),
            r.1 == r.0.pending(),
            obs@.len() < MIN_OBSERVATIONS ==> r.1 == SolverStep::Done(None),
    {
        let grid = Grid::world(params.grid_step);
        let stage = if obs.len() < MIN_OBSERVATIONS {
            Stage::Done(None)
        } else {
            Stage::Coarse
        };
        let step = match stage {
            Stage::Coarse => SolverStep::Measure { grid, center: None },
            _ => SolverStep::Done(None),
        };
        (Solver { obs, params, stage, grid }, step)
    }

    /// Takes the distances that the solver asked for and moves on.
    ///
    /// `table[k][i]` is the great-circle distance in metres from place `k`
    /// of the grid asked for to the endpoint of observation `i`;
    /// `center_dist_m[k]` that from place `k` to the centre, where one was
    /// named. A search that finds nothing ends the solver without an
    /// estimate.
    pub fn advance(&mut self, table: &[Vec<u32>], center_dist_m: &[u32]) -> (step: SolverStep)
        ensures
            final(self).obs@ == old(self).obs@,
            final(self).params == old(self).params,
            final(self).stage == next_stage(
                old(self).obs@,
                old(self).params,
                old(self).stage,
                old(self).grid,
                table@,
                center_dist_m@,
            ),
            final(self).grid == next_grid(
                old(self).obs@,
                old(self).params,
                old(self).stage,
                old(self).grid,
                table@,
            ),
            step == final(self).pending(),
    {
        match self.stage {
            Stage::Coarse => {
                match grid_search_bounds(
                    self.obs.as_slice(),
                    self.params.speed_m_s,
                    &self.grid,
                    table,
                ) {
                    Some(best) => {
                        let window: i64 = window_of(&self.params);
                        self.grid = Grid::around(
                            GridPoint { lat: best.lat, lon: best.lon },
                            window,
                            self.params.refine_step,
                        );
                        self.stage = Stage::Refine;
                    },
                    None => {
                        self.stage = Stage::Done(None);
                    },
                }
            },
            Stage::Refine => {
                match grid_search_bounds(
                    self.obs.as_slice(),
                    self.params.speed_m_s,
                    &self.grid,
                    table,
                ) {
                    Some(best) => {
                        let refine: i64 = window_of(&self.params);
                        let window: i64 = if self.params.band_window > refine {
                            self.params.band_window
                        } else {
                            refine
                        };
                        self.grid = Grid::around(
                            GridPoint { lat: best.lat, lon: best.lon },
                            window,
                            self.params.refine_step,
                        );
                        self.stage = Stage::Band(best);
                    },
                    None => {
                        self.stage = Stage::Done(None);
                    },
                }
            },
            Stage::Band(best) => {
                let band = fit_band(
                    self.obs.as_slice(),
                    self.params.speed_m_s,
                    best.sse,
                    &self.grid,
                    table,
                    center_dist_m,
                    self.params.band_factor_ppm,
                );
                self.stage = Stage::Done(
                    Some(
                        Estimate {
                            lat: best.lat,
                            lon: best.lon,
                            bias_ns: best.bias_ns,
                            sse: best.sse,
                            points: self.obs.len(),
                            band,
                        },
                    ),
                );
            },
            Stage::Done(_) => {},
        }
        match self.stage {
            Stage::Coarse => SolverStep::Measure { grid: self.grid, center: None },
            Stage::Refine => SolverStep::Measure { grid: self.grid, center: None },
            Stage::Band(best) => SolverStep::Measure {
                grid: self.grid,
                center: Some(GridPoint { lat: best.lat, lon: best.lon }),
            },
            Stage::Done(e) => SolverStep::Done(e),
        }
    }
}

/// Starts the estimate of the client's place from a session's statistics:
/// gathers the observations and starts a solver on them. Fewer than three
/// observations give no estimate.
pub fn estimate_location(
    stats: &[StatsEntry],
    endpoints: &[Endpoint],
    params: SolverParams,
    calibration: Option<&Calibration>,
) -> (r: (Solver, SolverStep))
    ensures
        r.0.obs@ == observed(endpoints@, calibration, stats@),
        r.0.params == params,
        r.0.stage == first_stage(r.0.obs@),
        r.0.grid == world_grid(params.grid_step),
        r.1 == r.0.pending(),
        r.0.obs@.len() < MIN_OBSERVATIONS ==> r.1 == SolverStep::Done(None),
{
    let obs = observations(stats, endpoints, calibration);
    Solver::start(obs, params)
}

} // verus!
