use stlrs::Error;
use stlrs::Mstl;
use stlrs::Scalar;
use stlrs::Stl;

#[derive(Clone, Copy, Debug, PartialEq)]
struct F(f32);

impl Scalar for F {
    fn from_count(n: usize) -> Self {
        F(n as f32)
    }

    fn plus(self, rhs: Self) -> Self {
        F(self.0 + rhs.0)
    }

    fn minus(self, rhs: Self) -> Self {
        F(self.0 - rhs.0)
    }

    fn times(self, rhs: Self) -> Self {
        F(self.0 * rhs.0)
    }

    fn over(self, rhs: Self) -> Self {
        F(self.0 / rhs.0)
    }

    fn abs(self) -> Self {
        F(self.0.abs())
    }

    fn sqrt(self) -> Self {
        F(self.0.sqrt())
    }

    fn ln(self) -> Self {
        F(self.0.ln())
    }

    fn powi(self, exponent: i32) -> Self {
        F(self.0.powi(exponent))
    }

    fn powf(self, exponent: Self) -> Self {
        F(self.0.powf(exponent.0))
    }

    fn le(self, rhs: Self) -> bool {
        self.0 <= rhs.0
    }

    fn lt(self, rhs: Self) -> bool {
        self.0 < rhs.0
    }
}

fn wrap(values: &[f32]) -> Vec<F> {
    values.iter().map(|&v| F(v)).collect()
}

fn unwrap_all(values: &[F]) -> Vec<f32> {
    values.iter().map(|v| v.0).collect()
}

fn assert_in_delta(exp: f32, act: f32) {
    assert!((exp - act).abs() < 0.001, "expected {} but got {}", exp, act);
}

fn assert_elements_in_delta(exp: &[f32], act: &[F]) {
    assert_eq!(exp.len(), act.len());
    for i in 0..exp.len() {
        assert_in_delta(exp[i], act[i].0);
    }
}

fn generate_series() -> Vec<F> {
    wrap(&[
        5.0, 9.0, 2.0, 9.0, 0.0, 6.0, 3.0, 8.0, 5.0, 8.0, 7.0, 8.0, 8.0, 0.0, 2.0, 5.0, 0.0, 5.0,
        6.0, 7.0, 3.0, 6.0, 1.0, 4.0, 4.0, 4.0, 3.0, 7.0, 5.0, 8.0,
    ])
}

#[test]
fn mstl_test_works() {
    let result = Mstl::fit(&generate_series(), &[6, 10]).unwrap();
    assert_elements_in_delta(
        &[0.28318232, 0.70529824, -1.980384, 2.1643379, -2.3356874],
        &result.seasonal()[0][..5],
    );
    assert_elements_in_delta(
        &[1.4130436, 1.6048906, 0.050958008, -1.8706754, -1.7704514],
        &result.seasonal()[1][..5],
    );
    assert_elements_in_delta(
        &[5.139485, 5.223691, 5.3078976, 5.387292, 5.4666862],
        &result.trend()[..5],
    );
    assert_elements_in_delta(
        &[-1.835711, 1.4661198, -1.3784716, 3.319045, -1.3605475],
        &result.remainder()[..5],
    );
}

#[test]
fn mstl_test_into_parts() {
    let result = Mstl::fit(&generate_series(), &[6, 10]).unwrap();
    let (seasonal, trend, remainder) = result.into_parts();
    assert_elements_in_delta(
        &[0.28318232, 0.70529824, -1.980384, 2.1643379, -2.3356874],
        &seasonal[0][..5],
    );
    assert_elements_in_delta(
        &[1.4130436, 1.6048906, 0.050958008, -1.8706754, -1.7704514],
        &seasonal[1][..5],
    );
    assert_elements_in_delta(
        &[5.139485, 5.223691, 5.3078976, 5.387292, 5.4666862],
        &trend[..5],
    );
    assert_elements_in_delta(
        &[-1.835711, 1.4661198, -1.3784716, 3.319045, -1.3605475],
        &remainder[..5],
    );
}

#[test]
fn test_unsorted_periods() {
    let result = Mstl::fit(&generate_series(), &[10, 6]).unwrap();
    assert_elements_in_delta(
        &[1.4130436, 1.6048906, 0.050958008, -1.8706754, -1.7704514],
        &result.seasonal()[0][..5],
    );
    assert_elements_in_delta(
        &[0.28318232, 0.70529824, -1.980384, 2.1643379, -2.3356874],
        &result.seasonal()[1][..5],
    );
    assert_elements_in_delta(
        &[5.139485, 5.223691, 5.3078976, 5.387292, 5.4666862],
        &result.trend()[..5],
    );
    assert_elements_in_delta(
        &[-1.835711, 1.4661198, -1.3784716, 3.319045, -1.3605475],
        &result.remainder()[..5],
    );
}

#[test]
fn test_lambda() {
    let result = Mstl::params()
        .lambda(F(0.5))
        .fit(&generate_series(), &[6, 10])
        .unwrap();
    assert_elements_in_delta(
        &[0.43371448, 0.10503793, -0.7178911, 1.2356076, -1.8253292],
        &result.seasonal()[0][..5],
    );
    assert_elements_in_delta(
        &[1.0437742, 0.8650516, 0.07303603, -1.428663, -1.1990008],
        &result.seasonal()[1][..5],
    );
    assert_elements_in_delta(
        &[2.0748303, 2.1291165, 2.1834028, 2.2330272, 2.2826517],
        &result.trend()[..5],
    );
    assert_elements_in_delta(
        &[-1.0801829, 0.900794, -0.7101207, 1.9600279, -1.2583216],
        &result.remainder()[..5],
    );
}

#[test]
fn test_lambda_zero() {
    let series: Vec<F> = generate_series().iter().map(|&v| F(v.0 + 1.0)).collect();
    let result = Mstl::params().lambda(F(0.0)).fit(&series, &[6, 10]).unwrap();
    assert_elements_in_delta(
        &[0.18727916, 0.029921893, -0.2716494, 0.47748315, -0.7320051],
        &result.seasonal()[0][..5],
    );
    assert_elements_in_delta(
        &[
            0.42725056,
            0.32145387,
            -0.019030934,
            -0.56607914,
            -0.46765903,
        ],
        &result.seasonal()[1][..5],
    );
    assert_elements_in_delta(
        &[1.592807, 1.6144379, 1.6360688, 1.6559447, 1.6758206],
        &result.trend()[..5],
    );
    assert_elements_in_delta(
        &[-0.41557717, 0.33677137, -0.24677622, 0.7352363, -0.47615635],
        &result.remainder()[..5],
    );
}

#[test]
fn test_lambda_out_of_range() {
    let result = Mstl::params().lambda(F(2.0)).fit(&generate_series(), &[6, 10]);
    assert_eq!(
        result.unwrap_err(),
        Error::Parameter("lambda must be between 0 and 1".to_string())
    );
}

#[test]
fn test_empty_periods() {
    let periods: Vec<usize> = Vec::new();
    let result = Mstl::fit(&generate_series(), &periods);
    assert_eq!(
        result.unwrap_err(),
        Error::Parameter("periods must not be empty".to_string())
    );
}

#[test]
fn test_period_one() {
    let result = Mstl::fit(&generate_series(), &[1]);
    assert_eq!(
        result.unwrap_err(),
        Error::Parameter("periods must be at least 2".to_string())
    );
}

#[test]
fn mstl_test_too_few_periods() {
    let result = Mstl::fit(&generate_series(), &[16]);
    assert_eq!(
        result.unwrap_err(),
        Error::Series("series has less than two periods".to_string())
    );
}

#[test]
fn mstl_test_seasonal_strength() {
    let mut stl_params = Stl::params();
    stl_params.seasonal_length(7);
    let result = Mstl::params()
        .stl_params(stl_params)
        .fit(&generate_series(), &[7])
        .unwrap();
    assert_in_delta(0.284111676315015, result.seasonal_strength()[0].0);
}

#[test]
fn mstl_test_seasonal_strength_max() {
    let series = (0..30).map(|v| F((v % 7) as f32)).collect::<Vec<F>>();
    let mut stl_params = Stl::params();
    stl_params.seasonal_length(7);
    let result = Mstl::params()
        .stl_params(stl_params)
        .fit(&series, &[7])
        .unwrap();
    assert_in_delta(1.0, result.seasonal_strength()[0].0);
}

#[test]
fn mstl_test_trend_strength() {
    let mut stl_params = Stl::params();
    stl_params.seasonal_length(7);
    let result = Mstl::params()
        .stl_params(stl_params)
        .fit(&generate_series(), &[7])
        .unwrap();
    assert_in_delta(0.16384245231864702, result.trend_strength().0);
}

#[test]
fn mstl_test_trend_strength_max() {
    let series = (0..30).map(|v| F(v as f32)).collect::<Vec<F>>();
    let mut stl_params = Stl::params();
    stl_params.seasonal_length(7);
    let result = Mstl::params()
        .stl_params(stl_params)
        .fit(&series, &[7])
        .unwrap();
    assert_in_delta(1.0, result.trend_strength().0);
}

#[test]
fn multi_period_components_add_up_to_the_series() {
    let series = generate_series();
    let result = Mstl::fit(&series, &[6, 10]).unwrap();
    assert_eq!(result.seasonal().len(), 2);
    for i in 0..series.len() {
        let seasonal: f32 = result.seasonal().iter().map(|s| s[i].0).sum();
        assert_in_delta(series[i].0, seasonal + result.trend()[i].0 + result.remainder()[i].0);
    }
}

#[test]
fn multi_period_components_add_up_to_the_transformed_series() {
    let series: Vec<F> = generate_series().iter().map(|&v| F(v.0 + 1.0)).collect();
    let result = Mstl::params().lambda(F(0.5)).fit(&series, &[6, 10]).unwrap();
    for i in 0..series.len() {
        let transformed = (series[i].0.powf(0.5) - 1.0) / 0.5;
        let seasonal: f32 = result.seasonal().iter().map(|s| s[i].0).sum();
        assert_in_delta(transformed, seasonal + result.trend()[i].0 + result.remainder()[i].0);
    }
}

#[test]
fn multi_period_strengths_lie_between_zero_and_one() {
    let result = Mstl::fit(&generate_series(), &[6, 10]).unwrap();
    let seasonal = result.seasonal_strength();
    assert_eq!(seasonal.len(), 2);
    for s in seasonal {
        assert!((0.0..=1.0).contains(&s.0));
    }
    assert!((0.0..=1.0).contains(&result.trend_strength().0));
}

#[test]
fn single_period_ignores_the_number_of_iterations() {
    let series = generate_series();
    let by_default = Mstl::fit(&series, &[7]).unwrap();
    let once = Mstl::params().iterations(1).fit(&series, &[7]).unwrap();
    let often = Mstl::params().iterations(5).fit(&series, &[7]).unwrap();
    assert_eq!(unwrap_all(&by_default.seasonal()[0]), unwrap_all(&once.seasonal()[0]));
    assert_eq!(unwrap_all(by_default.trend()), unwrap_all(once.trend()));
    assert_eq!(unwrap_all(by_default.remainder()), unwrap_all(once.remainder()));
    assert_eq!(unwrap_all(often.trend()), unwrap_all(once.trend()));
}

#[test]
fn single_period_with_default_window_is_the_single_decomposition_with_window_eleven() {
    let series = generate_series();
    let multi = Mstl::fit(&series, &[7]).unwrap();
    let single = Stl::params().seasonal_length(11).fit(&series, 7).unwrap();
    assert_eq!(unwrap_all(&multi.seasonal()[0]), unwrap_all(single.seasonal()));
    assert_eq!(unwrap_all(multi.trend()), unwrap_all(single.trend()));
}

#[test]
fn lambda_zero_takes_the_logarithm() {
    let series: Vec<F> = generate_series().iter().map(|&v| F(v.0 + 1.0)).collect();
    let logs: Vec<F> = series.iter().map(|v| F(v.0.ln())).collect();
    let transformed = Mstl::params().lambda(F(0.0)).fit(&series, &[6, 10]).unwrap();
    let plain = Mstl::fit(&logs, &[6, 10]).unwrap();
    assert_eq!(unwrap_all(transformed.trend()), unwrap_all(plain.trend()));
    assert_eq!(unwrap_all(transformed.remainder()), unwrap_all(plain.remainder()));
    assert_eq!(
        unwrap_all(&stlrs::mstl_impl::box_cox(&series, F(0.0))),
        unwrap_all(&logs)
    );
}

#[test]
fn power_transform_follows_its_formula() {
    let r = stlrs::mstl_impl::box_cox(&[F(4.0), F(9.0)], F(0.5));
    assert_eq!(unwrap_all(&r), vec![2.0, 4.0]);
    let r = stlrs::mstl_impl::box_cox(&[F(4.0), F(9.0)], F(1.0));
    assert_eq!(unwrap_all(&r), vec![3.0, 8.0]);
}

#[test]
fn lambda_below_zero_is_refused() {
    let result = Mstl::params().lambda(F(-0.5)).fit(&generate_series(), &[6, 10]);
    assert_eq!(
        result.unwrap_err(),
        Error::Parameter("lambda must be between 0 and 1".to_string())
    );
    let at_the_edge = Mstl::params().lambda(F(1.0)).fit(&generate_series(), &[6, 10]);
    assert!(at_the_edge.is_ok());
}

#[test]
fn listed_windows_must_match_the_periods() {
    let result = Mstl::params().seasonal_lengths(&[11]).fit(&generate_series(), &[6, 10]);
    assert_eq!(
        result.unwrap_err(),
        Error::Parameter("seasonal_lengths must have the same length as periods".to_string())
    );
    let listed = Mstl::params().seasonal_lengths(&[11, 15]).fit(&generate_series(), &[6, 10]).unwrap();
    let by_default = Mstl::fit(&generate_series(), &[6, 10]).unwrap();
    assert_eq!(unwrap_all(listed.trend()), unwrap_all(by_default.trend()));
    let swapped = Mstl::params().seasonal_lengths(&[15, 11]).fit(&generate_series(), &[10, 6]).unwrap();
    assert_eq!(unwrap_all(swapped.trend()), unwrap_all(by_default.trend()));
}

#[test]
fn errors_come_in_the_order_of_the_checks() {
    let series = generate_series();
    let result = Mstl::params().lambda(F(2.0)).fit(&series, &[16, 1]);
    assert_eq!(
        result.unwrap_err(),
        Error::Parameter("periods must be at least 2".to_string())
    );
    let result = Mstl::params().lambda(F(2.0)).fit(&series, &[16]);
    assert_eq!(
        result.unwrap_err(),
        Error::Series("series has less than two periods".to_string())
    );
    let mut stl_params = Stl::params();
    stl_params.trend_degree(3);
    let result = Mstl::params().stl_params(stl_params).fit(&series, &[6]);
    assert_eq!(
        result.unwrap_err(),
        Error::Parameter("trend_degree must be 0 or 1".to_string())
    );
    let result = Mstl::params().stl_params(stl_params).fit(&series, &[]);
    assert_eq!(
        result.unwrap_err(),
        Error::Parameter("periods must not be empty".to_string())
    );
}

#[test]
fn default_multi_period_parameters() {
    let d: stlrs::MstlParams<F> = Default::default();
    assert_eq!(d.iterate, 2);
    assert!(d.lambda.is_none());
    assert!(d.swin.is_none());
    assert!(d.stl_params.ns.is_none());
    let by_default = d.fit(&generate_series(), &[6, 10]).unwrap();
    let plain = Mstl::fit(&generate_series(), &[6, 10]).unwrap();
    assert_eq!(unwrap_all(by_default.trend()), unwrap_all(plain.trend()));
}

#[test]
fn more_rounds_refine_the_components() {
    let series = generate_series();
    let once = Mstl::params().iterations(1).fit(&series, &[6, 10]).unwrap();
    let twice = Mstl::params().iterations(2).fit(&series, &[6, 10]).unwrap();
    assert_ne!(unwrap_all(&once.seasonal()[0]), unwrap_all(&twice.seasonal()[0]));
    let plain = Mstl::fit(&series, &[6, 10]).unwrap();
    assert_eq!(unwrap_all(&plain.seasonal()[0]), unwrap_all(&twice.seasonal()[0]));
}

#[test]
fn first_period_of_one_round_is_the_single_decomposition() {
    let series = generate_series();
    let once = Mstl::params().iterations(1).fit(&series, &[10, 6]).unwrap();
    let single = Stl::params().seasonal_length(11).fit(&series, 6).unwrap();
    assert_eq!(unwrap_all(&once.seasonal()[1]), unwrap_all(single.seasonal()));
}

#[test]
fn listed_even_window_is_refused() {
    let series = generate_series();
    let result = Mstl::params().seasonal_lengths(&[11, 14]).fit(&series, &[6, 10]);
    assert_eq!(
        result.unwrap_err(),
        Error::Parameter("seasonal_length must be odd".to_string())
    );
    let result = Mstl::params().seasonal_lengths(&[2, 15]).fit(&series, &[6, 10]);
    assert_eq!(
        result.unwrap_err(),
        Error::Parameter("seasonal_length must be at least 3".to_string())
    );
    let mut stl_params = Stl::params();
    stl_params.seasonal_length(8);
    let result = Mstl::params().stl_params(stl_params).fit(&series, &[6, 10]);
    assert_eq!(
        result.unwrap_err(),
        Error::Parameter("seasonal_length must be odd".to_string())
    );
}

#[test]
fn first_period_at_fault_is_the_one_handled_first() {
    let series = generate_series();
    // the period 6 is handled before the period 10, wherever it is listed
    let result = Mstl::params().seasonal_lengths(&[8, 2]).fit(&series, &[6, 10]);
    assert_eq!(
        result.unwrap_err(),
        Error::Parameter("seasonal_length must be odd".to_string())
    );
    let result = Mstl::params().seasonal_lengths(&[8, 2]).fit(&series, &[10, 6]);
    assert_eq!(
        result.unwrap_err(),
        Error::Parameter("seasonal_length must be at least 3".to_string())
    );
    let result = Mstl::params().seasonal_lengths(&[8, 2]).fit(&series, &[6, 6]);
    assert_eq!(
        result.unwrap_err(),
        Error::Parameter("seasonal_length must be odd".to_string())
    );
    // what is at fault for every period comes before an even window of the first
    let mut stl_params = Stl::params();
    stl_params.trend_length(2);
    let result = Mstl::params()
        .stl_params(stl_params)
        .seasonal_lengths(&[8, 11])
        .fit(&series, &[6, 10]);
    assert_eq!(
        result.unwrap_err(),
        Error::Parameter("trend_length must be at least 3".to_string())
    );
}

#[test]
fn faults_are_reported_without_a_round() {
    let series = generate_series();
    let result = Mstl::params().iterations(0).lambda(F(2.0)).fit(&series, &[6, 10]);
    assert_eq!(
        result.unwrap_err(),
        Error::Parameter("lambda must be between 0 and 1".to_string())
    );
    let result = Mstl::params().iterations(0).lambda(F(f32::NAN)).fit(&series, &[6, 10]);
    assert_eq!(
        result.unwrap_err(),
        Error::Parameter("lambda must be between 0 and 1".to_string())
    );
    let result = Mstl::params().iterations(0).fit(&series, &[1, 6]);
    assert_eq!(
        result.unwrap_err(),
        Error::Parameter("periods must be at least 2".to_string())
    );
    let result = Mstl::params().iterations(0).fit(&series, &[6, 16]);
    assert_eq!(
        result.unwrap_err(),
        Error::Series("series has less than two periods".to_string())
    );
    let result = Mstl::params().iterations(0).seasonal_lengths(&[11]).fit(&series, &[6, 10]);
    assert_eq!(
        result.unwrap_err(),
        Error::Parameter("seasonal_lengths must have the same length as periods".to_string())
    );
    let once = Mstl::params().iterations(0).fit(&series, &[7]).unwrap();
    assert_eq!(once.seasonal().len(), 1);
}

#[test]
fn check_reports_what_fit_reports() {
    let series = generate_series();
    let params = Mstl::params::<F>();
    assert!(params.check(30, &[6, 10], true).is_ok());
    assert_eq!(
        params.check(30, &[], true).unwrap_err(),
        Error::Parameter("periods must not be empty".to_string())
    );
    assert_eq!(
        params.check(30, &[6, 16], true).unwrap_err(),
        Mstl::fit(&series, &[6, 16]).unwrap_err()
    );
    let mut listed = Mstl::params::<F>();
    listed.seasonal_lengths(&[11, 4]);
    assert_eq!(
        listed.check(30, &[6, 10], true).unwrap_err(),
        Error::Parameter("seasonal_length must be odd".to_string())
    );
    let mut transformed = Mstl::params::<F>();
    transformed.lambda(F(0.5));
    assert!(transformed.check(30, &[6, 10], true).is_ok());
    assert_eq!(
        transformed.check(30, &[6, 10], false).unwrap_err(),
        Error::Parameter("lambda must be between 0 and 1".to_string())
    );
}
