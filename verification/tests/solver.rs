use lattice::band::{fit_band, threshold, SSE_EPSILON};
use lattice::grid::{Grid, GridPoint};
use lattice::order::{is_before, sorted_order};
use lattice::search::{check_table, grid_search, grid_search_bounds};
use lattice::solver::{sse_for_candidate, EndpointObs};

fn obs(rtt_ns: u64, jitter_ns: u64) -> EndpointObs {
    EndpointObs { lat: 0, lon: 0, rtt_ns, jitter_ns }
}

const SPEED: u64 = 200_000_000;

#[test]
fn objective_at_one_candidate() {
    // Weights 1 000 000 and 500 000; residuals 10 ms and 11 ms; the weighted
    // mean of the residuals is 10.333 333 ms.
    let o = [obs(10_000_000, 1_000_000), obs(12_000_000, 2_000_000)];
    let (sse, bias) = sse_for_candidate(&o, &[0, 100_000], SPEED).unwrap();
    assert_eq!(bias, 10_333_333);
    assert_eq!(sse, 333_333_333_333_500_000);
}

#[test]
fn bias_is_never_negative() {
    // 1 ms measured where the physics predicts 10 ms.
    let o = [obs(1_000_000, 1_000_000), obs(1_000_000, 1_000_000)];
    let (sse, bias) = sse_for_candidate(&o, &[1_000_000, 1_000_000], SPEED).unwrap();
    assert_eq!(bias, 0);
    assert_eq!(sse, 2 * 1_000_000 * 9_000_000u128 * 9_000_000);
}

#[test]
fn bias_fits_no_worse_than_its_neighbours() {
    let o = [obs(10_000_001, 1_000_000), obs(12_000_000, 3_000_000), obs(9_500_000, 0)];
    let dist = [0u32, 100_000, 250_000];
    let (sse, bias) = sse_for_candidate(&o, &dist, SPEED).unwrap();
    let at = |b: i128| -> u128 {
        let mut total = 0u128;
        for (ob, d) in o.iter().zip(dist.iter()) {
            let j = ob.jitter_ns.max(1_000_000) as u128;
            let w = 1_000_000_000_000u128 / j;
            let pred = (2 * (*d as u128) * 1_000_000_000 / SPEED as u128) as i128;
            let e = ob.rtt_ns as i128 - pred - b;
            total += w * (e * e) as u128;
        }
        total
    };
    assert_eq!(sse, at(bias as i128));
    for b in [0i128, bias as i128 - 1, bias as i128 + 1, bias as i128 + 1000, 1] {
        assert!(sse <= at(b), "bias {} beats {}", b, bias);
    }
}

#[test]
fn jitter_below_the_floor_weighs_as_the_floor() {
    let low = [obs(5_000_000, 0), obs(7_000_000, 999_999)];
    let floor = [obs(5_000_000, 1_000_000), obs(7_000_000, 1_000_000)];
    assert_eq!(sse_for_candidate(&low, &[0, 0], SPEED), sse_for_candidate(&floor, &[0, 0], SPEED));
    assert_eq!(
        sse_for_candidate(&floor, &[0, 0], SPEED),
        Some((2_000_000_000_000_000_000, 6_000_000))
    );
    assert_eq!(sse_for_candidate(&[], &[], SPEED), Some((0, 0)));
}

#[test]
fn objective_stops_at_the_largest_number() {
    let o = [obs(u64::MAX, 1_000_000), obs(1, 1_000_000)];
    let (sse, bias) = sse_for_candidate(&o, &[0, 0], 1).unwrap();
    assert_eq!(bias, 1 << 63);
    assert_eq!(sse, u128::MAX);
}

#[test]
fn objective_needs_a_speed_and_a_distance_for_each_observation() {
    let o = [obs(10_000_000, 1_000_000), obs(12_000_000, 2_000_000)];
    assert_eq!(sse_for_candidate(&o, &[0, 100_000], 0), None);
    assert_eq!(sse_for_candidate(&o, &[0], SPEED), None);
    assert_eq!(sse_for_candidate(&o, &[0, 1, 2], SPEED), None);
    assert!(sse_for_candidate(&o, &[0, 1], 1).is_some());
}

#[test]
fn grids_are_numbered_latitude_by_latitude() {
    let g = Grid { lat_min: -1_000_000, lat_max: 1_000_000, lon_min: 10, lon_max: 2_500_010, step: 1_000_000 };
    assert_eq!(g.len(), Some(9));
    assert_eq!(g.point(0), Some(GridPoint { lat: -1_000_000, lon: 10 }));
    assert_eq!(g.point(1), Some(GridPoint { lat: -1_000_000, lon: 1_000_010 }));
    assert_eq!(g.point(2), Some(GridPoint { lat: -1_000_000, lon: 2_000_010 }));
    assert_eq!(g.point(3), Some(GridPoint { lat: 0, lon: 10 }));
    assert_eq!(g.point(8), Some(GridPoint { lat: 1_000_000, lon: 2_000_010 }));
    assert_eq!(g.point(9), None);
}

#[test]
fn grids_stop_at_the_poles_but_not_at_the_date_line() {
    let world = Grid::world(1_000_000);
    assert_eq!(world.len(), Some(181 * 361));
    assert_eq!(world.point(0), Some(GridPoint { lat: -90_000_000, lon: -180_000_000 }));
    assert_eq!(world.point(181 * 361 - 1), Some(GridPoint { lat: 90_000_000, lon: 180_000_000 }));
    let north = Grid::around(GridPoint { lat: 89_000_000, lon: 179_000_000 }, 2_000_000, 1_000_000);
    assert_eq!(north.lat_max, 91_000_000);
    assert_eq!(north.len(), Some(4 * 5));
    assert_eq!(north.point(0), Some(GridPoint { lat: 87_000_000, lon: 177_000_000 }));
    assert_eq!(north.point(19), Some(GridPoint { lat: 90_000_000, lon: 181_000_000 }));
    let south = Grid::around(GridPoint { lat: -90_000_000, lon: 0 }, 1_500_000, 1_000_000);
    assert_eq!(south.point(0), Some(GridPoint { lat: -90_000_000, lon: -1_500_000 }));
    assert_eq!(south.len(), Some(2 * 4));
}

#[test]
fn empty_grids() {
    assert_eq!(Grid::world(0).len(), Some(0));
    assert_eq!(Grid::world(-1).len(), Some(0));
    assert_eq!(Grid::world(0).point(0), None);
    let reversed = Grid { lat_min: 5, lat_max: 4, lon_min: 0, lon_max: 10, step: 1 };
    assert_eq!(reversed.len(), Some(0));
    let beyond = Grid { lat_min: 91_000_000, lat_max: 95_000_000, lon_min: 0, lon_max: 10, step: 1 };
    assert_eq!(beyond.len(), Some(0));
    let single = Grid { lat_min: 7, lat_max: 7, lon_min: -3, lon_max: -3, step: 1_000 };
    assert_eq!(single.len(), Some(1));
    assert_eq!(single.point(0), Some(GridPoint { lat: 7, lon: -3 }));
    let wide = Grid { lat_min: 0, lat_max: 0, lon_min: i64::MIN, lon_max: i64::MAX, step: i64::MAX };
    assert_eq!(wide.len(), Some(3));
    assert_eq!(wide.point(2), Some(GridPoint { lat: 0, lon: i64::MAX - 1 }));
}

#[test]
fn search_takes_the_first_of_the_best() {
    let o = [obs(10_000_000, 1_000_000), obs(10_000_000, 1_000_000), obs(10_000_000, 1_000_000)];
    let g = Grid { lat_min: 0, lat_max: 0, lon_min: 0, lon_max: 3, step: 1 };
    // Equal distances fit exactly; the second and the fourth place do.
    let table = vec![
        vec![0, 100_000, 200_000],
        vec![50_000, 50_000, 50_000],
        vec![0, 0, 300_000],
        vec![70_000, 70_000, 70_000],
    ];
    let best = grid_search_bounds(&o, SPEED, &g, &table).unwrap();
    assert_eq!((best.lat, best.lon), (0, 1));
    assert_eq!(best.sse, 0);
    assert_eq!(best.bias_ns, 9_500_000);
    let reversed: Vec<Vec<u32>> = table.iter().rev().cloned().collect();
    let best = grid_search_bounds(&o, SPEED, &g, &reversed).unwrap();
    assert_eq!((best.lat, best.lon), (0, 0));
    assert_eq!(best.bias_ns, 9_300_000);
}

#[test]
fn search_refuses_what_it_cannot_search() {
    let o = [obs(10_000_000, 1_000_000)];
    let g = Grid { lat_min: 0, lat_max: 0, lon_min: 0, lon_max: 1, step: 1 };
    let table = vec![vec![0u32], vec![5]];
    assert!(grid_search_bounds(&o, SPEED, &g, &table).is_some());
    assert_eq!(grid_search_bounds(&o, 0, &g, &table), None);
    assert_eq!(grid_search_bounds(&o, SPEED, &g, &table[..1]), None);
    assert_eq!(grid_search_bounds(&o, SPEED, &g, &[vec![0], vec![5, 6]]), None);
    assert_eq!(grid_search_bounds(&o, SPEED, &Grid::world(0), &[]), None);
    assert_eq!(grid_search(&o, SPEED, 0, &[]), None);
    assert!(check_table(&table, 2, 1));
    assert!(!check_table(&table, 2, 2));
    assert!(!check_table(&table, 3, 1));
    assert!(check_table(&[], 0, 7));
    let whole_world: Vec<Vec<u32>> = (0..3 * 5).map(|k| vec![k as u32 * 1000]).collect();
    let best = grid_search(&[obs(1, 1)], SPEED, 90_000_000, &whole_world).unwrap();
    assert_eq!((best.lat, best.lon), (-90_000_000, -180_000_000));
}

#[test]
fn band_threshold_is_the_larger_raise() {
    assert_eq!(SSE_EPSILON, 1_000_000_000);
    assert_eq!(threshold(0, 100_000), 1_000_000_000);
    assert_eq!(threshold(10, 0), 1_000_000_010);
    assert_eq!(threshold(1_000_000_000_000, 100_000), 1_100_000_000_000);
    assert_eq!(threshold(1_000_000_000_000, 1), 1_001_000_000_000);
    assert_eq!(threshold(1_999_999_000_000, 500_000), 2_999_998_500_000);
    assert_eq!(threshold(u128::MAX, 1), u128::MAX);
    assert_eq!(threshold(u128::MAX, 0), u128::MAX);
    assert_eq!(threshold(u128::MAX / 2, 1_000_000), u128::MAX - 1);
    assert_eq!(threshold(u128::MAX / 2 + 1, 1_000_000), u128::MAX);
    assert_eq!(threshold(333_333_333_333_500_000, 100_000), 366_666_666_666_850_000);
}

#[test]
fn band_spans_the_places_that_fit() {
    let o = [obs(10_000_000, 1_000_000), obs(10_000_000, 1_000_000)];
    let g = Grid { lat_min: -1, lat_max: 1, lon_min: 10, lon_max: 12, step: 1 };
    // Equal distances fit exactly; the others miss by half a millisecond
    // each way, which makes 2 * 1 000 000 * 500 000^2.
    let fits = vec![50_000u32, 50_000];
    let off = vec![0u32, 100_000];
    let table = vec![
        off.clone(), fits.clone(), off.clone(),
        fits.clone(), fits.clone(), off.clone(),
        off.clone(), off.clone(), fits.clone(),
    ];
    let center_dist = vec![9, 8, 7, 6, 0, 5, 4, 3, 2];
    let band = fit_band(&o, SPEED, 0, &g, &table, &center_dist, 0).unwrap();
    assert_eq!(band.points, 4);
    assert_eq!(band.sse_threshold, 1_000_000_000);
    assert_eq!(band.radius_m, 8);
    assert_eq!((band.min_lat, band.max_lat), (-1, 1));
    assert_eq!((band.min_lon, band.max_lon), (10, 12));
    let missed = 500_000_000_000_000_000u128;
    let all = fit_band(&o, SPEED, missed - SSE_EPSILON, &g, &table, &center_dist, 0).unwrap();
    assert_eq!(all.sse_threshold, missed);
    assert_eq!(all.points, 9);
    assert_eq!(all.radius_m, 9);
    let below = fit_band(&o, SPEED, missed - SSE_EPSILON - 1, &g, &table, &center_dist, 0).unwrap();
    assert_eq!(below.points, 4);
    let raised = fit_band(&o, SPEED, missed / 2, &g, &table, &center_dist, 1_000_000).unwrap();
    assert_eq!(raised.sse_threshold, missed);
    assert_eq!(raised.points, 9);
}

#[test]
fn band_box_is_that_of_its_places() {
    let o = [obs(10_000_000, 1_000_000), obs(10_000_000, 1_000_000)];
    let fits = vec![50_000u32, 50_000];
    let off = vec![0u32, 100_000];
    // The estimate lies at (0, 0); a window of 0.1 degrees at a step of 0.25
    // degrees holds the one place (-0.1, -0.1).
    let g = Grid::around(GridPoint { lat: 0, lon: 0 }, 100_000, 250_000);
    assert_eq!(g.len(), Some(1));
    let one = fit_band(&o, SPEED, 0, &g, &[fits.clone()], &[15_700], 0).unwrap();
    assert_eq!(one.points, 1);
    assert_eq!(one.radius_m, 15_700);
    assert_eq!((one.min_lat, one.max_lat), (-100_000, -100_000));
    assert_eq!((one.min_lon, one.max_lon), (-100_000, -100_000));
    // Only the last two places of a row belong.
    let row = Grid { lat_min: 7, lat_max: 7, lon_min: 0, lon_max: 3, step: 1 };
    let table = vec![off.clone(), off.clone(), fits.clone(), fits.clone()];
    let band = fit_band(&o, SPEED, 0, &row, &table, &[40, 30, 20, 10], 0).unwrap();
    assert_eq!(band.points, 2);
    assert_eq!(band.radius_m, 20);
    assert_eq!((band.min_lat, band.max_lat, band.min_lon, band.max_lon), (7, 7, 2, 3));
}

#[test]
fn band_without_places() {
    let o = [obs(10_000_000, 1_000_000), obs(10_000_000, 1_000_000)];
    let g = Grid { lat_min: 0, lat_max: 0, lon_min: 0, lon_max: 0, step: 1 };
    let table = vec![vec![0u32, 100_000]];
    assert_eq!(fit_band(&o, SPEED, 0, &g, &table, &[3], 0), None);
    let one = fit_band(&o, SPEED, 500_000_000_000_000_000, &g, &table, &[3], 0).unwrap();
    assert_eq!(one.points, 1);
    assert_eq!(one.radius_m, 3);
    assert_eq!((one.min_lat, one.max_lat, one.min_lon, one.max_lon), (0, 0, 0, 0));
    assert_eq!(fit_band(&o, SPEED, u128::MAX, &g, &table, &[], 0), None);
    assert_eq!(fit_band(&o, 0, u128::MAX, &g, &table, &[3], 0), None);
    assert_eq!(fit_band(&o, SPEED, u128::MAX, &Grid::world(0), &[], &[], 0), None);
}

#[test]
fn ids_are_ordered_by_their_characters() {
    let c = |s: &str| -> Vec<char> { s.chars().collect() };
    let names = ["b", "a@vpn", "", "a", "B", "ab", "a", "\u{e9}", "z"];
    for x in names {
        for y in names {
            assert_eq!(is_before(&c(x), &c(y)), x < y, "{:?} {:?}", x, y);
        }
    }
    let keys: Vec<Vec<char>> = names.iter().map(|s| c(s)).collect();
    let order = sorted_order(&keys);
    assert_eq!(order, vec![2, 4, 3, 6, 1, 5, 0, 8, 7]);
    assert_eq!(sorted_order(&Vec::new()), Vec::<usize>::new());
}
