use stlrs::Error;
use stlrs::Scalar;
use stlrs::Stl;

#[derive(Clone, Copy, Debug, PartialEq)]
struct F(f32);

impl Scalar for F {
    fn from_count(n: usize) -> Self {
        F(n as f32)
    }

    fn plus(self, rhs: Self) -> Self {
        F(self.0 + rhs.0)
    }

    fn minus(self, rhs: Self) -> Self {
        F(self.0 - rhs.0)
    }

    fn times(self, rhs: Self) -> Self {
        F(self.0 * rhs.0)
    }

    fn over(self, rhs: Self) -> Self {
        F(self.0 / rhs.0)
    }

    fn abs(self) -> Self {
        F(self.0.abs())
    }

    fn sqrt(self) -> Self {
        F(self.0.sqrt())
    }

    fn ln(self) -> Self {
        F(self.0.ln())
    }

    fn powi(self, exponent: i32) -> Self {
        F(self.0.powi(exponent))
    }

    fn powf(self, exponent: Self) -> Self {
        F(self.0.powf(exponent.0))
    }

    fn le(self, rhs: Self) -> bool {
        self.0 <= rhs.0
    }

    fn lt(self, rhs: Self) -> bool {
        self.0 < rhs.0
    }
}

fn wrap(values: &[f32]) -> Vec<F> {
    values.iter().map(|&v| F(v)).collect()
}

fn unwrap_all(values: &[F]) -> Vec<f32> {
    values.iter().map(|v| v.0).collect()
}

fn assert_in_delta(exp: f32, act: f32) {
    assert!((exp - act).abs() < 0.001, "expected {} but got {}", exp, act);
}

fn assert_elements_in_delta(exp: &[f32], act: &[F]) {
    assert_eq!(exp.len(), act.len());
    for i in 0..exp.len() {
        assert_in_delta(exp[i], act[i].0);
    }
}

fn generate_series() -> Vec<F> {
    wrap(&[
        5.0, 9.0, 2.0, 9.0, 0.0, 6.0, 3.0, 8.0, 5.0, 8.0, 7.0, 8.0, 8.0, 0.0, 2.0, 5.0, 0.0, 5.0,
        6.0, 7.0, 3.0, 6.0, 1.0, 4.0, 4.0, 4.0, 3.0, 7.0, 5.0, 8.0,
    ])
}

#[test]
fn stl_test_works() {
    let result = Stl::fit(&generate_series(), 7).unwrap();
    assert_elements_in_delta(
        &[0.36926576, 0.75655484, -1.3324139, 1.9553658, -0.6044802],
        &result.seasonal()[..5],
    );
    assert_elements_in_delta(
        &[4.804099, 4.9097075, 5.015316, 5.16045, 5.305584],
        &result.trend()[..5],
    );
    assert_elements_in_delta(
        &[-0.17336464, 3.3337379, -1.6829021, 1.8841844, -4.7011037],
        &result.remainder()[..5],
    );
    assert_elements_in_delta(&[1.0, 1.0, 1.0, 1.0, 1.0], &result.weights()[..5]);
}

#[test]
fn test_robust() {
    let result = Stl::params()
        .robust(true)
        .fit(&generate_series(), 7)
        .unwrap();
    assert_elements_in_delta(
        &[0.14922355, 0.47939026, -1.833231, 1.7411387, 0.8200711],
        &result.seasonal()[..5],
    );
    assert_elements_in_delta(
        &[5.397365, 5.4745436, 5.5517216, 5.6499176, 5.748114],
        &result.trend()[..5],
    );
    assert_elements_in_delta(
        &[-0.5465884, 3.0460663, -1.7184906, 1.6089439, -6.5681853],
        &result.remainder()[..5],
    );
    assert_elements_in_delta(
        &[0.99374926, 0.8129377, 0.9385952, 0.9458036, 0.29742217],
        &result.weights()[..5],
    );
}

#[test]
fn stl_test_into_parts() {
    let result = Stl::fit(&generate_series(), 7).unwrap();
    let (seasonal, trend, remainder, weights) = result.into_parts();
    assert_elements_in_delta(
        &[0.36926576, 0.75655484, -1.3324139, 1.9553658, -0.6044802],
        &seasonal[..5],
    );
    assert_elements_in_delta(
        &[4.804099, 4.9097075, 5.015316, 5.16045, 5.305584],
        &trend[..5],
    );
    assert_elements_in_delta(
        &[-0.17336464, 3.3337379, -1.6829021, 1.8841844, -4.7011037],
        &remainder[..5],
    );
    assert_elements_in_delta(&[1.0, 1.0, 1.0, 1.0, 1.0], &weights[..5]);
}

#[test]
fn stl_test_too_few_periods() {
    let result = Stl::params().fit(&generate_series(), 16);
    assert_eq!(
        result.unwrap_err(),
        Error::Series("series has less than two periods".to_string())
    );
}

#[test]
fn test_bad_seasonal_degree() {
    let result = Stl::params().seasonal_degree(2).fit(&generate_series(), 7);
    assert_eq!(
        result.unwrap_err(),
        Error::Parameter("seasonal_degree must be 0 or 1".to_string())
    );
}

#[test]
fn stl_test_seasonal_strength() {
    let result = Stl::fit(&generate_series(), 7).unwrap();
    assert_in_delta(0.284111676315015, result.seasonal_strength().0);
}

#[test]
fn stl_test_seasonal_strength_max() {
    let series = (0..30).map(|v| F((v % 7) as f32)).collect::<Vec<F>>();
    let result = Stl::fit(&series, 7).unwrap();
    assert_in_delta(1.0, result.seasonal_strength().0);
}

#[test]
fn stl_test_trend_strength() {
    let result = Stl::fit(&generate_series(), 7).unwrap();
    assert_in_delta(0.16384245231864702, result.trend_strength().0);
}

#[test]
fn stl_test_trend_strength_max() {
    let series = (0..30).map(|v| F(v as f32)).collect::<Vec<F>>();
    let result = Stl::fit(&series, 7).unwrap();
    assert_in_delta(1.0, result.trend_strength().0);
}

#[test]
fn components_add_up_to_the_series() {
    let series = generate_series();
    for robust in [false, true] {
        let result = Stl::params().robust(robust).fit(&series, 7).unwrap();
        assert_eq!(result.seasonal().len(), series.len());
        assert_eq!(result.trend().len(), series.len());
        assert_eq!(result.remainder().len(), series.len());
        assert_eq!(result.weights().len(), series.len());
        for i in 0..series.len() {
            let sum = result.seasonal()[i].0 + result.trend()[i].0 + result.remainder()[i].0;
            assert_in_delta(series[i].0, sum);
        }
    }
}

#[test]
fn weights_are_one_without_robustness() {
    let series = generate_series();
    let result = Stl::params().inner_loops(3).fit(&series, 5).unwrap();
    assert_eq!(unwrap_all(result.weights()), vec![1.0f32; 30]);
    let result = Stl::params().robust(true).outer_loops(0).fit(&series, 5).unwrap();
    assert_eq!(unwrap_all(result.weights()), vec![1.0f32; 30]);
}

#[test]
fn robust_weights_lie_between_zero_and_one() {
    let result = Stl::params().robust(true).fit(&generate_series(), 7).unwrap();
    let weights = unwrap_all(result.weights());
    assert!(weights.iter().all(|w| (0.0..=1.0).contains(w)));
    assert!(weights.iter().any(|&w| w != 1.0));
}

#[test]
fn explicit_strides_and_windows_are_used() {
    let series = generate_series();
    let coarse = Stl::params()
        .seasonal_length(9)
        .trend_length(13)
        .low_pass_length(7)
        .seasonal_jump(3)
        .trend_jump(4)
        .low_pass_jump(2)
        .trend_degree(0)
        .low_pass_degree(1)
        .fit(&series, 7)
        .unwrap();
    let fine = Stl::params()
        .seasonal_length(9)
        .trend_length(13)
        .low_pass_length(7)
        .trend_degree(0)
        .low_pass_degree(1)
        .seasonal_jump(1)
        .trend_jump(1)
        .low_pass_jump(1)
        .fit(&series, 7)
        .unwrap();
    assert_ne!(unwrap_all(coarse.trend()), unwrap_all(fine.trend()));
    for i in 0..series.len() {
        let sum = coarse.seasonal()[i].0 + coarse.trend()[i].0 + coarse.remainder()[i].0;
        assert_in_delta(series[i].0, sum);
        assert!(coarse.trend()[i].0.is_finite());
    }
}

#[test]
fn window_longer_than_the_series_is_accepted() {
    let series = generate_series();
    let result = Stl::params().trend_length(101).seasonal_length(51).fit(&series, 7).unwrap();
    for i in 0..series.len() {
        assert!(result.trend()[i].0.is_finite());
        let sum = result.seasonal()[i].0 + result.trend()[i].0 + result.remainder()[i].0;
        assert_in_delta(series[i].0, sum);
    }
}

#[test]
fn shortest_series_is_decomposed() {
    let series = wrap(&[1.0, 2.0, 1.0, 2.0]);
    let result = Stl::fit(&series, 2).unwrap();
    assert_eq!(result.seasonal().len(), 4);
    for i in 0..4 {
        let sum = result.seasonal()[i].0 + result.trend()[i].0 + result.remainder()[i].0;
        assert_in_delta(series[i].0, sum);
    }
}

#[test]
fn strength_of_a_result_by_function_and_by_method() {
    let result = Stl::fit(&generate_series(), 7).unwrap();
    assert_eq!(
        stlrs::strength::seasonal_strength(&result).0,
        result.seasonal_strength().0
    );
    assert_eq!(
        stlrs::strength::trend_strength(&result).0,
        result.trend_strength().0
    );
    assert_in_delta(0.284111676315015, stlrs::strength::seasonal_strength(&result).0);
    assert_in_delta(0.16384245231864702, stlrs::strength::trend_strength(&result).0);
}

#[test]
fn named_even_seasonal_window_is_refused() {
    let result = Stl::params().seasonal_length(8).fit(&generate_series(), 7);
    assert_eq!(
        result.unwrap_err(),
        Error::Parameter("seasonal_length must be odd".to_string())
    );
    let result = Stl::params().trend_length(2).fit(&generate_series(), 7);
    assert_eq!(
        result.unwrap_err(),
        Error::Parameter("trend_length must be at least 3".to_string())
    );
    assert!(Stl::params().seasonal_length(9).trend_length(3).fit(&generate_series(), 7).is_ok());
}

#[test]
fn fault_is_reported_whatever_the_stride() {
    let result = Stl::params().seasonal_jump(0).fit(&generate_series(), 16);
    assert_eq!(
        result.unwrap_err(),
        Error::Series("series has less than two periods".to_string())
    );
    let result = Stl::params().trend_jump(0).low_pass_length(4).fit(&generate_series(), 7);
    assert_eq!(
        result.unwrap_err(),
        Error::Parameter("low_pass_length must be odd".to_string())
    );
}
