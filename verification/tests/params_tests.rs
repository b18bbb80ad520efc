use stlrs::mstl_impl::rank_order;
use stlrs::mstl_impl::rounds_for;
use stlrs::params;
use stlrs::loess::window_at;
use stlrs::Error;
use stlrs::Fault;
use stlrs::Stl;
use stlrs::StlParams;

fn windows(params: &StlParams, n: usize, period: usize) -> (usize, usize, usize) {
    let c = params.resolve(n, period).unwrap();
    (c.ns, c.nt, c.nl)
}

#[test]
fn defaults_for_period_seven() {
    let c = StlParams::new().resolve(30, 7).unwrap();
    assert_eq!(c.np, 7);
    assert_eq!((c.ns, c.nt, c.nl), (7, 15, 7));
    assert_eq!((c.isdeg, c.itdeg, c.ildeg), (0, 1, 1));
    assert_eq!((c.nsjump, c.ntjump, c.nljump), (1, 2, 1));
    assert_eq!((c.ni, c.no), (2, 0));
}

#[test]
fn free_function_gives_the_defaults() {
    let c = params().resolve(30, 7).unwrap();
    let d = Stl::params().resolve(30, 7).unwrap();
    assert_eq!((c.ns, c.nt, c.nl, c.ni, c.no), (d.ns, d.nt, d.nl, d.ni, d.no));
}

#[test]
fn robust_defaults() {
    let c = StlParams::new().robust(true).resolve(30, 7).unwrap();
    assert_eq!((c.ni, c.no), (1, 15));
    let c = StlParams::new().robust(true).inner_loops(4).outer_loops(3).resolve(30, 7).unwrap();
    assert_eq!((c.ni, c.no), (4, 3));
}

#[test]
fn even_period_gives_odd_windows() {
    assert_eq!(windows(&StlParams::new(), 30, 6), (7, 13, 7));
    assert_eq!(windows(&StlParams::new(), 30, 2), (3, 7, 3));
    assert_eq!(windows(&StlParams::new(), 40, 10), (11, 19, 11));
}

#[test]
fn trend_window_is_the_rounded_up_ratio() {
    // 1.5 * 6 / (1 - 1.5 / 11) = 10.42..
    assert_eq!(windows(StlParams::new().seasonal_length(11), 30, 6).1, 11);
    // 1.5 * 10 / (1 - 1.5 / 15) = 16.66..
    assert_eq!(windows(StlParams::new().seasonal_length(15), 30, 10).1, 17);
    // 1.5 * 5 / (1 - 1.5 / 9) = 9 exactly
    assert_eq!(windows(StlParams::new().seasonal_length(9), 30, 5).1, 9);
    // 1.5 * 4 / (1 - 1.5 / 3) = 12, made odd
    assert_eq!(windows(StlParams::new().seasonal_length(3), 30, 4).1, 13);
}

#[test]
fn named_windows_are_taken_as_they_are() {
    assert_eq!(windows(StlParams::new().seasonal_length(9), 30, 7).0, 9);
    assert_eq!(windows(StlParams::new().seasonal_length(3), 30, 7).0, 3);
    assert_eq!(windows(StlParams::new().trend_length(21), 30, 7).1, 21);
    assert_eq!(windows(StlParams::new().trend_length(3), 30, 7).1, 3);
    assert_eq!(windows(StlParams::new().low_pass_length(9), 30, 7).2, 9);
}

#[test]
fn named_windows_below_three_are_refused() {
    for w in [0, 1, 2] {
        let e = StlParams::new().seasonal_length(w).resolve(30, 7).unwrap_err();
        assert_eq!(e, Error::Parameter("seasonal_length must be at least 3".to_string()));
        let e = StlParams::new().trend_length(w).resolve(30, 7).unwrap_err();
        assert_eq!(e, Error::Parameter("trend_length must be at least 3".to_string()));
        let e = StlParams::new().low_pass_length(w).resolve(30, 7).unwrap_err();
        assert_eq!(e, Error::Parameter("low_pass_length must be at least 3".to_string()));
    }
}

#[test]
fn named_even_windows_are_refused() {
    let e = StlParams::new().seasonal_length(8).resolve(30, 7).unwrap_err();
    assert_eq!(e, Error::Parameter("seasonal_length must be odd".to_string()));
    let e = StlParams::new().trend_length(20).resolve(30, 7).unwrap_err();
    assert_eq!(e, Error::Parameter("trend_length must be odd".to_string()));
    let e = StlParams::new().low_pass_length(8).resolve(30, 7).unwrap_err();
    assert_eq!(e, Error::Parameter("low_pass_length must be odd".to_string()));
}

#[test]
fn defaulted_windows_are_raised_to_odd() {
    // the period 6 gives the seasonal window 7, the ratio 12 the trend window 13
    assert_eq!(windows(&StlParams::new(), 30, 6), (7, 13, 7));
    assert_eq!(windows(StlParams::new().seasonal_length(3), 30, 4).1, 13);
}

#[test]
fn window_faults_are_checked_in_order() {
    let e = StlParams::new()
        .seasonal_length(2)
        .trend_length(2)
        .low_pass_length(2)
        .resolve(30, 7)
        .unwrap_err();
    assert_eq!(e, Error::Parameter("seasonal_length must be at least 3".to_string()));
    let e = StlParams::new().seasonal_length(8).trend_length(2).resolve(30, 7).unwrap_err();
    assert_eq!(e, Error::Parameter("trend_length must be at least 3".to_string()));
    let e = StlParams::new().seasonal_length(8).low_pass_length(1).resolve(30, 7).unwrap_err();
    assert_eq!(e, Error::Parameter("low_pass_length must be at least 3".to_string()));
    let e = StlParams::new().seasonal_length(8).resolve(30, 1).unwrap_err();
    assert_eq!(e, Error::Parameter("period must be at least 2".to_string()));
    let e = StlParams::new().seasonal_length(8).trend_degree(2).resolve(30, 7).unwrap_err();
    assert_eq!(e, Error::Parameter("trend_degree must be 0 or 1".to_string()));
    let e = StlParams::new()
        .seasonal_length(8)
        .trend_length(8)
        .low_pass_length(8)
        .resolve(30, 7)
        .unwrap_err();
    assert_eq!(e, Error::Parameter("seasonal_length must be odd".to_string()));
    let e = StlParams::new().trend_length(8).low_pass_length(8).resolve(30, 7).unwrap_err();
    assert_eq!(e, Error::Parameter("trend_length must be odd".to_string()));
    let e = StlParams::new().seasonal_length(2).resolve(30, 16).unwrap_err();
    assert_eq!(e, Error::Series("series has less than two periods".to_string()));
}

#[test]
fn zero_stride_does_not_hide_a_fault() {
    let e = StlParams::new().seasonal_jump(0).seasonal_degree(2).resolve(30, 7).unwrap_err();
    assert_eq!(e, Error::Parameter("seasonal_degree must be 0 or 1".to_string()));
    let e = StlParams::new().trend_jump(0).resolve(30, 16).unwrap_err();
    assert_eq!(e, Error::Series("series has less than two periods".to_string()));
}

#[test]
fn default_strides_are_a_tenth_of_the_window() {
    let c = StlParams::new()
        .seasonal_length(21)
        .trend_length(101)
        .low_pass_length(9)
        .resolve(300, 7)
        .unwrap();
    assert_eq!((c.nsjump, c.ntjump, c.nljump), (3, 11, 1));
    let c = StlParams::new()
        .seasonal_jump(5)
        .trend_jump(6)
        .low_pass_jump(7)
        .resolve(30, 7)
        .unwrap();
    assert_eq!((c.nsjump, c.ntjump, c.nljump), (5, 6, 7));
}

#[test]
fn low_pass_degree_follows_the_trend_degree() {
    let c = StlParams::new().trend_degree(0).resolve(30, 7).unwrap();
    assert_eq!(c.ildeg, 0);
    let c = StlParams::new().trend_degree(0).low_pass_degree(1).resolve(30, 7).unwrap();
    assert_eq!((c.itdeg, c.ildeg), (0, 1));
    let c = StlParams::new().seasonal_degree(1).resolve(30, 7).unwrap();
    assert_eq!(c.isdeg, 1);
}

#[test]
fn too_short_series_is_refused_first() {
    let e = StlParams::new().seasonal_degree(2).resolve(30, 16).unwrap_err();
    assert_eq!(e, Error::Series("series has less than two periods".to_string()));
    let e = StlParams::new().resolve(13, 7).unwrap_err();
    assert_eq!(e, Error::Series("series has less than two periods".to_string()));
    assert!(StlParams::new().resolve(14, 7).is_ok());
}

#[test]
fn each_parameter_fault_has_its_message() {
    let e = StlParams::new().low_pass_length(2).resolve(30, 7).unwrap_err();
    assert_eq!(e, Error::Parameter("low_pass_length must be at least 3".to_string()));
    let e = StlParams::new().resolve(30, 1).unwrap_err();
    assert_eq!(e, Error::Parameter("period must be at least 2".to_string()));
    let e = StlParams::new().resolve(0, 0).unwrap_err();
    assert_eq!(e, Error::Parameter("period must be at least 2".to_string()));
    let e = StlParams::new().seasonal_degree(-1).resolve(30, 7).unwrap_err();
    assert_eq!(e, Error::Parameter("seasonal_degree must be 0 or 1".to_string()));
    let e = StlParams::new().trend_degree(2).resolve(30, 7).unwrap_err();
    assert_eq!(e, Error::Parameter("trend_degree must be 0 or 1".to_string()));
    let e = StlParams::new().low_pass_degree(2).resolve(30, 7).unwrap_err();
    assert_eq!(e, Error::Parameter("low_pass_degree must be 0 or 1".to_string()));
    let e = StlParams::new().low_pass_length(8).resolve(30, 7).unwrap_err();
    assert_eq!(e, Error::Parameter("low_pass_length must be odd".to_string()));
}

#[test]
fn faults_are_checked_in_order() {
    let e = StlParams::new()
        .low_pass_length(2)
        .seasonal_degree(2)
        .resolve(30, 7)
        .unwrap_err();
    assert_eq!(e, Error::Parameter("low_pass_length must be at least 3".to_string()));
    let e = StlParams::new()
        .low_pass_length(8)
        .seasonal_degree(2)
        .trend_degree(2)
        .resolve(30, 7)
        .unwrap_err();
    assert_eq!(e, Error::Parameter("seasonal_degree must be 0 or 1".to_string()));
}

#[test]
fn every_fault_reports_its_message() {
    assert_eq!(
        Fault::TooFewPeriods.error(),
        Error::Series("series has less than two periods".to_string())
    );
    assert_eq!(
        Fault::SeasonalLengthTooSmall.error().message(),
        "seasonal_length must be at least 3".to_string()
    );
    assert_eq!(
        Fault::TrendLengthEven.error().message(),
        "trend_length must be odd".to_string()
    );
    assert_eq!(
        Fault::SeasonalLengthsMismatch.error(),
        Error::Parameter("seasonal_lengths must have the same length as periods".to_string())
    );
    assert_eq!(
        Fault::NoPeriods.error().message(),
        "periods must not be empty".to_string()
    );
    assert_eq!(
        Fault::LambdaOutOfRange.error().message(),
        "lambda must be between 0 and 1".to_string()
    );
    assert_eq!(
        Fault::PeriodsTooSmall.error().message(),
        "periods must be at least 2".to_string()
    );
}

#[test]
fn window_is_centred_where_it_fits() {
    assert_eq!(window_at(1, 10, 5), (1, 5));
    assert_eq!(window_at(3, 10, 5), (1, 5));
    assert_eq!(window_at(4, 10, 5), (2, 6));
    assert_eq!(window_at(7, 10, 5), (5, 9));
    assert_eq!(window_at(8, 10, 5), (6, 10));
    assert_eq!(window_at(10, 10, 5), (6, 10));
    assert_eq!(window_at(5, 10, 4), (4, 7));
    assert_eq!(window_at(9, 10, 4), (7, 10));
}

#[test]
fn window_as_long_as_the_sequence_is_the_sequence() {
    assert_eq!(window_at(1, 10, 10), (1, 10));
    assert_eq!(window_at(7, 10, 25), (1, 10));
    assert_eq!(window_at(3, 3, usize::MAX), (1, 3));
}

#[test]
fn periods_are_ranked_ascending_and_stably() {
    assert_eq!(rank_order(&[6, 10]), vec![0, 1]);
    assert_eq!(rank_order(&[10, 6]), vec![1, 0]);
    assert_eq!(rank_order(&[12, 4, 7, 4, 12, 2]), vec![5, 1, 3, 2, 0, 4]);
    assert_eq!(rank_order(&[]), Vec::<usize>::new());
    assert_eq!(rank_order(&[3]), vec![0]);
}

#[test]
fn one_period_takes_one_round() {
    assert_eq!(rounds_for(2, 1), 1);
    assert_eq!(rounds_for(0, 1), 1);
    assert_eq!(rounds_for(2, 2), 2);
    assert_eq!(rounds_for(5, 3), 5);
}

#[test]
fn default_parameters_name_nothing() {
    let d = StlParams::default();
    assert_eq!((d.ns, d.nt, d.nl), (None, None, None));
    assert_eq!((d.isdeg, d.itdeg, d.ildeg), (0, 1, None));
    assert_eq!((d.nsjump, d.ntjump, d.nljump), (None, None, None));
    assert_eq!((d.ni, d.no, d.robust), (None, None, false));
    let c = d.resolve(30, 7).unwrap();
    assert_eq!((c.ns, c.nt, c.nl), (7, 15, 7));
}
