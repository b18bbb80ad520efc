use stlrs::cycle::ss;
use stlrs::filter::fts;
use stlrs::filter::ma;
use stlrs::loess::est;
use stlrs::robust::rwts;
use stlrs::robust::sort;
use stlrs::scalar::copy_of;
use stlrs::scalar::fill;
use stlrs::scalar::filled;
use stlrs::scalar::larger;
use stlrs::smooth::ess;
use stlrs::stl_impl::stl;
use stlrs::stl_result::strength;
use stlrs::stl_result::var;
use stlrs::Scalar;
use stlrs::StlParams;

#[derive(Clone, Copy, Debug, PartialEq)]
struct F(f32);

impl Scalar for F {
    fn from_count(n: usize) -> Self {
        F(n as f32)
    }

    fn plus(self, rhs: Self) -> Self {
        F(self.0 + rhs.0)
    }

    fn minus(self, rhs: Self) -> Self {
        F(self.0 - rhs.0)
    }

    fn times(self, rhs: Self) -> Self {
        F(self.0 * rhs.0)
    }

    fn over(self, rhs: Self) -> Self {
        F(self.0 / rhs.0)
    }

    fn abs(self) -> Self {
        F(self.0.abs())
    }

    fn sqrt(self) -> Self {
        F(self.0.sqrt())
    }

    fn ln(self) -> Self {
        F(self.0.ln())
    }

    fn powi(self, exponent: i32) -> Self {
        F(self.0.powi(exponent))
    }

    fn powf(self, exponent: Self) -> Self {
        F(self.0.powf(exponent.0))
    }

    fn le(self, rhs: Self) -> bool {
        self.0 <= rhs.0
    }

    fn lt(self, rhs: Self) -> bool {
        self.0 < rhs.0
    }
}

fn wrap(values: &[f32]) -> Vec<F> {
    values.iter().map(|&v| F(v)).collect()
}

fn unwrap_all(values: &[F]) -> Vec<f32> {
    values.iter().map(|v| v.0).collect()
}

fn assert_in_delta(exp: f32, act: f32) {
    assert!((exp - act).abs() < 0.001, "expected {} but got {}", exp, act);
}

fn assert_elements_in_delta(exp: &[f32], act: &[F]) {
    assert_eq!(exp.len(), act.len());
    for i in 0..exp.len() {
        assert_in_delta(exp[i], act[i].0);
    }
}

fn generate_series() -> Vec<F> {
    wrap(&[
        5.0, 9.0, 2.0, 9.0, 0.0, 6.0, 3.0, 8.0, 5.0, 8.0, 7.0, 8.0, 8.0, 0.0, 2.0, 5.0, 0.0, 5.0,
        6.0, 7.0, 3.0, 6.0, 1.0, 4.0, 4.0, 4.0, 3.0, 7.0, 5.0, 8.0,
    ])
}

fn line(n: usize, slope: f32, offset: f32) -> Vec<F> {
    (1..=n).map(|j| F(slope * j as f32 + offset)).collect()
}

#[test]
fn moving_average_of_window_three() {
    let x = wrap(&[1.0, 2.0, 3.0, 4.0, 5.0]);
    let mut ave = wrap(&[9.0; 5]);
    ma(&x, 5, 3, &mut ave);
    assert_eq!(unwrap_all(&ave), vec![2.0, 3.0, 4.0, 9.0, 9.0]);
}

#[test]
fn moving_average_of_the_whole_is_the_mean() {
    let x = wrap(&[1.0, 2.0, 6.0]);
    let mut ave = wrap(&[0.0]);
    ma(&x, 3, 3, &mut ave);
    assert_eq!(unwrap_all(&ave), vec![3.0]);
}

#[test]
fn low_pass_filter_takes_three_averages() {
    let x = wrap(&[1.0, 2.0, 3.0, 4.0, 5.0, 6.0, 7.0]);
    let mut trend = wrap(&[0.0; 7]);
    let mut work = wrap(&[0.0; 7]);
    fts(&x, 7, 2, &mut trend, &mut work);
    assert_eq!(unwrap_all(&trend[..3]), vec![3.0, 4.0, 5.0]);
    assert_eq!(unwrap_all(&work[..5]), vec![2.0, 3.0, 4.0, 5.0, 6.0]);
}

#[test]
fn sort_puts_values_in_ascending_order() {
    let mut v = wrap(&[3.0, 1.0, 2.0, 5.0, 4.0, 1.0, 0.5, 7.0, 3.0]);
    sort(&mut v);
    assert_eq!(unwrap_all(&v), vec![0.5, 1.0, 1.0, 2.0, 3.0, 3.0, 4.0, 5.0, 7.0]);
    let mut one = wrap(&[4.0]);
    sort(&mut one);
    assert_eq!(unwrap_all(&one), vec![4.0]);
    let mut none: Vec<F> = Vec::new();
    sort(&mut none);
    assert!(none.is_empty());
}

#[test]
fn sort_keeps_every_value_whatever_the_order_says() {
    let mut v = wrap(&[3.0, f32::NAN, 2.0, 5.0, f32::NAN, 1.0]);
    sort(&mut v);
    let mut rest: Vec<f32> = unwrap_all(&v).into_iter().filter(|x| !x.is_nan()).collect();
    rest.sort_by(|a, b| a.partial_cmp(b).unwrap());
    assert_eq!(rest, vec![1.0, 2.0, 3.0, 5.0]);
    assert_eq!(v.len(), 6);
}

#[test]
fn robustness_weights_follow_the_bisquare_kernel() {
    let y = wrap(&[1.0, 2.0, 3.0, 4.0, 5.0]);
    let fit = wrap(&[0.0, 0.0, 0.0, 0.0, 0.0]);
    let mut rw = wrap(&[0.0; 5]);
    rwts(&y, 5, &fit, &mut rw);
    // the scale is 3 * (3 + 3) = 18
    let expected: Vec<f32> = [1.0f32, 2.0, 3.0, 4.0, 5.0]
        .iter()
        .map(|r| (1.0 - (r / 18.0).powi(2)).powi(2))
        .collect();
    assert_elements_in_delta(&expected, &rw);
    assert_in_delta(0.945216, rw[2].0);
}

#[test]
fn robustness_weights_take_the_two_middle_residuals() {
    let y = wrap(&[4.0, 1.0, 3.0, 2.0]);
    let fit = wrap(&[0.0; 4]);
    let mut rw = wrap(&[0.0; 4]);
    rwts(&y, 4, &fit, &mut rw);
    // the scale is 3 * (2 + 3) = 15
    assert_in_delta((1.0f32 - (4.0f32 / 15.0).powi(2)).powi(2), rw[0].0);
    assert_in_delta((1.0f32 - (1.0f32 / 15.0).powi(2)).powi(2), rw[1].0);
}

#[test]
fn robustness_weights_at_the_thresholds() {
    let y = wrap(&[0.0, 1.0, 1.0, 1.0, 6.0, 5.9]);
    let fit = wrap(&[0.0; 6]);
    let mut rw = wrap(&[0.0; 6]);
    rwts(&y, 6, &fit, &mut rw);
    // the scale is 3 * (1 + 1) = 6: weight 1 up to 0.006, weight 0 beyond 5.994
    assert_eq!(rw[0].0, 1.0);
    assert_eq!(rw[4].0, 0.0);
    assert!(rw[5].0 > 0.0 && rw[5].0 < 0.01);
}

#[test]
fn robustness_weights_with_a_scale_of_zero() {
    let y = wrap(&[1.0, 2.0, 3.0, 4.0, 15.0]);
    let fit = wrap(&[1.0, 2.0, 3.0, 4.0, 5.0]);
    let mut rw = wrap(&[0.5; 5]);
    rwts(&y, 5, &fit, &mut rw);
    assert_eq!(unwrap_all(&rw), vec![1.0, 1.0, 1.0, 1.0, 0.0]);
}

#[test]
fn fit_of_a_constant_is_the_constant() {
    let y = wrap(&[5.0; 9]);
    let mut w = wrap(&[0.0; 9]);
    for degree in [0, 1] {
        let fitted = est(&y, 9, 5, degree, F(4.0), 2, 6, &mut w, false, &[]);
        assert_in_delta(5.0, fitted.unwrap().0);
    }
}

#[test]
fn fit_of_degree_one_follows_a_line() {
    let y = line(9, 2.0, 1.0);
    let mut w = wrap(&[0.0; 9]);
    let fitted = est(&y, 9, 5, 1, F(4.0), 2, 6, &mut w, false, &[]);
    assert_in_delta(9.0, fitted.unwrap().0);
    let at_the_edge = est(&y, 9, 5, 1, F(1.0), 1, 5, &mut w, false, &[]);
    assert_in_delta(3.0, at_the_edge.unwrap().0);
    let beyond = est(&y, 9, 5, 1, F(0.0), 1, 5, &mut w, false, &[]);
    assert_in_delta(1.0, beyond.unwrap().0);
}

#[test]
fn fit_of_degree_zero_is_the_weighted_mean() {
    let y = wrap(&[0.0, 3.0, 0.0]);
    let mut w = wrap(&[0.0; 3]);
    // at 2 over 1..=3 the bandwidth is 1: only position 2 lies within it
    let fitted = est(&y, 3, 3, 0, F(2.0), 1, 3, &mut w, false, &[]);
    assert_in_delta(3.0, fitted.unwrap().0);
    assert_eq!(unwrap_all(&w), vec![0.0, 1.0, 0.0]);
}

#[test]
fn fit_uses_the_tricube_weights() {
    let y = wrap(&[1.0, 0.0, 0.0, 0.0, 0.0]);
    let mut w = wrap(&[0.0; 5]);
    // at 3 over 1..=5 with a window of 9 on 5 values the bandwidth is 2 + 2 = 4
    let fitted = est(&y, 5, 9, 0, F(3.0), 1, 5, &mut w, false, &[]);
    let far = (1.0f32 - 0.5f32.powi(3)).powi(3);
    let near = (1.0f32 - 0.25f32.powi(3)).powi(3);
    let total = 2.0 * far + 2.0 * near + 1.0;
    assert_in_delta(far / total, fitted.unwrap().0);
    assert_in_delta(near / total, w[1].0);
    assert_in_delta(1.0 / total, w[2].0);
}

#[test]
fn fit_with_robustness_weights_leaves_out_what_weighs_nothing() {
    let y = wrap(&[1.0, 100.0, 1.0, 1.0, 1.0]);
    let rw = wrap(&[1.0, 0.0, 1.0, 1.0, 1.0]);
    let mut w = wrap(&[0.0; 5]);
    let fitted = est(&y, 5, 5, 0, F(3.0), 1, 5, &mut w, true, &rw);
    assert_in_delta(1.0, fitted.unwrap().0);
    let plain = est(&y, 5, 5, 0, F(3.0), 1, 5, &mut w, false, &rw);
    assert!(plain.unwrap().0 > 10.0);
}

#[test]
fn fit_without_usable_neighbours_is_none() {
    let y = wrap(&[1.0, 2.0, 3.0]);
    let rw = wrap(&[0.0, 0.0, 0.0]);
    let mut w = wrap(&[0.0; 3]);
    let fitted = est(&y, 3, 3, 0, F(2.0), 1, 3, &mut w, true, &rw);
    assert!(fitted.is_none());
}

#[test]
fn smoothing_falls_back_to_the_observation() {
    let y = wrap(&[1.0, 2.0, 3.0, 4.0]);
    let rw = wrap(&[0.0; 4]);
    let mut ys = wrap(&[0.0; 4]);
    let mut res = wrap(&[0.0; 4]);
    ess(&y, 4, 3, 0, 1, true, &rw, &mut ys, 0, &mut res);
    assert_eq!(unwrap_all(&ys), vec![1.0, 2.0, 3.0, 4.0]);
}

#[test]
fn smoothing_a_line_gives_the_line() {
    let y = line(20, 0.5, 2.0);
    for (len, jump) in [(5, 1), (5, 3), (7, 4), (25, 1), (25, 6), (5, 19), (5, 50)] {
        let mut ys = wrap(&[0.0; 22]);
        let mut res = wrap(&[0.0; 20]);
        ess(&y, 20, len, 1, jump, false, &[], &mut ys, 1, &mut res);
        assert_eq!(ys[0].0, 0.0);
        assert_eq!(ys[21].0, 0.0);
        assert_elements_in_delta(&unwrap_all(&y), &ys[1..21]);
    }
}

#[test]
fn smoothing_interpolates_between_the_anchors() {
    let y = wrap(&[0.0, 5.0, 0.0, 5.0, 0.0, 5.0, 0.0, 5.0, 0.0, 5.0]);
    let mut ys = wrap(&[0.0; 10]);
    let mut res = wrap(&[0.0; 10]);
    ess(&y, 10, 3, 0, 4, false, &[], &mut ys, 0, &mut res);
    // anchors at 1, 5, 9 and the last position
    let v = unwrap_all(&ys);
    for (lo, hi) in [(0usize, 4usize), (4, 8)] {
        for j in lo + 1..hi {
            let expected = v[lo] + (v[hi] - v[lo]) / 4.0 * (j - lo) as f32;
            assert_in_delta(expected, v[j]);
        }
    }
    let mut exact = wrap(&[0.0; 10]);
    ess(&y, 10, 3, 0, 1, false, &[], &mut exact, 0, &mut res);
    for anchor in [0, 4, 8] {
        assert_eq!(v[anchor], exact[anchor].0);
    }
}

#[test]
fn smoothing_one_value_keeps_it() {
    let y = wrap(&[7.0]);
    let mut ys = wrap(&[0.0, 0.0]);
    let mut res = wrap(&[0.0]);
    ess(&y, 1, 3, 1, 1, false, &[], &mut ys, 1, &mut res);
    assert_eq!(unwrap_all(&ys), vec![0.0, 7.0]);
}

#[test]
fn cycle_smoothing_of_a_periodic_series_repeats_the_cycle() {
    let y: Vec<F> = (0..12).map(|v| F((v % 3) as f32)).collect();
    let mut season = wrap(&[9.0; 18]);
    let mut work1 = wrap(&[0.0; 18]);
    let mut work2 = wrap(&[0.0; 18]);
    let mut work3 = wrap(&[0.0; 18]);
    let mut work4 = wrap(&[0.0; 12]);
    ss(
        &y, 12, 3, 3, 0, 1, false, &[], &mut season, &mut work1, &mut work2, &mut work3,
        &mut work4,
    );
    for (i, s) in season.iter().enumerate() {
        assert_in_delta((i % 3) as f32, s.0);
    }
}

#[test]
fn outer_loop_without_robustness_sets_the_weights_to_one() {
    let y = generate_series();
    let cfg = StlParams::new().resolve(30, 7).unwrap();
    let mut rw = wrap(&[0.25; 30]);
    let mut season = wrap(&[0.0; 30]);
    let mut trend = wrap(&[0.0; 30]);
    stl(&y, &cfg, &mut rw, &mut season, &mut trend);
    assert_eq!(unwrap_all(&rw), vec![1.0; 30]);
    assert_elements_in_delta(
        &[0.36926576, 0.75655484, -1.3324139, 1.9553658, -0.6044802],
        &season[..5],
    );
}

#[test]
fn variance_is_unbiased() {
    assert_eq!(var(&wrap(&[1.0, 2.0, 3.0, 4.0])).0, 5.0 / 3.0);
    assert_eq!(var(&wrap(&[2.0, 2.0, 2.0])).0, 0.0);
}

#[test]
fn strength_is_one_minus_the_ratio_of_variances() {
    let component = wrap(&[1.0, -1.0, 1.0, -1.0]);
    let remainder = wrap(&[1.0, 1.0, -1.0, -1.0]);
    // var(remainder) = 4 / 3, var(component + remainder) = 8 / 3
    assert_in_delta(0.5, strength(&component, &remainder).0);
    let nothing = wrap(&[0.0; 4]);
    assert_in_delta(0.0, strength(&nothing, &remainder).0);
    assert_eq!(strength(&remainder, &nothing).0, 1.0);
}

#[test]
fn strength_is_never_below_zero() {
    let component = wrap(&[-1.0, -1.0, 1.0, 1.0]);
    let remainder = wrap(&[1.0, 1.0, -1.0, -1.0]);
    assert_eq!(strength(&component, &remainder).0, 0.0);
}

#[test]
fn helpers_fill_and_copy() {
    assert_eq!(unwrap_all(&filled(3, F(2.0))), vec![2.0, 2.0, 2.0]);
    let mut v = wrap(&[1.0, 2.0]);
    fill(&mut v, F(7.0));
    assert_eq!(unwrap_all(&v), vec![7.0, 7.0]);
    assert_eq!(copy_of(&[3usize, 1, 2]), vec![3, 1, 2]);
    assert_eq!(larger(F(1.0), F(2.0)).0, 2.0);
    assert_eq!(larger(F(3.0), F(2.0)).0, 3.0);
}
