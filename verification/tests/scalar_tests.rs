use stlrs::Mstl;
use stlrs::Scalar;
use stlrs::Stl;

/// Double precision.
#[derive(Clone, Copy, Debug, PartialEq)]
struct D(f64);

impl Scalar for D {
    fn from_count(n: usize) -> Self {
        D(n as f64)
    }

    fn plus(self, rhs: Self) -> Self {
        D(self.0 + rhs.0)
    }

    fn minus(self, rhs: Self) -> Self {
        D(self.0 - rhs.0)
    }

    fn times(self, rhs: Self) -> Self {
        D(self.0 * rhs.0)
    }

    fn over(self, rhs: Self) -> Self {
        D(self.0 / rhs.0)
    }

    fn abs(self) -> Self {
        D(self.0.abs())
    }

    fn sqrt(self) -> Self {
        D(self.0.sqrt())
    }

    fn ln(self) -> Self {
        D(self.0.ln())
    }

    fn powi(self, exponent: i32) -> Self {
        D(self.0.powi(exponent))
    }

    fn powf(self, exponent: Self) -> Self {
        D(self.0.powf(exponent.0))
    }

    fn le(self, rhs: Self) -> bool {
        self.0 <= rhs.0
    }

    fn lt(self, rhs: Self) -> bool {
        self.0 < rhs.0
    }
}

fn mood(a: f32, b: f32) -> u32 {
    (a.to_bits() ^ b.to_bits().rotate_left(13)).wrapping_mul(2654435761) >> 27
}

/// An arithmetic that answers as it pleases: its comparisons are no order
/// and every operation may return a number that is none.
#[derive(Clone, Copy, Debug)]
struct Moody(f32);

fn moody(v: f32) -> Moody {
    match mood(v, 1.0) % 5 {
        0 => Moody(f32::NAN),
        1 => Moody(f32::INFINITY),
        _ => Moody(v),
    }
}

impl Scalar for Moody {
    fn from_count(n: usize) -> Self {
        moody(n as f32)
    }

    fn plus(self, rhs: Self) -> Self {
        moody(self.0 + rhs.0)
    }

    fn minus(self, rhs: Self) -> Self {
        moody(self.0 - rhs.0)
    }

    fn times(self, rhs: Self) -> Self {
        moody(self.0 * rhs.0)
    }

    fn over(self, rhs: Self) -> Self {
        moody(self.0 / rhs.0)
    }

    fn abs(self) -> Self {
        moody(-self.0)
    }

    fn sqrt(self) -> Self {
        moody(self.0.sqrt())
    }

    fn ln(self) -> Self {
        moody(self.0.ln())
    }

    fn powi(self, exponent: i32) -> Self {
        moody(self.0.powi(exponent))
    }

    fn powf(self, exponent: Self) -> Self {
        moody(self.0.powf(exponent.0))
    }

    fn le(self, rhs: Self) -> bool {
        mood(self.0, rhs.0) % 2 == 0
    }

    fn lt(self, rhs: Self) -> bool {
        mood(rhs.0, self.0) % 3 == 0
    }
}

const SERIES: [f64; 30] = [
    5.0, 9.0, 2.0, 9.0, 0.0, 6.0, 3.0, 8.0, 5.0, 8.0, 7.0, 8.0, 8.0, 0.0, 2.0, 5.0, 0.0, 5.0, 6.0,
    7.0, 3.0, 6.0, 1.0, 4.0, 4.0, 4.0, 3.0, 7.0, 5.0, 8.0,
];

fn close(exp: &[f64], act: &[D]) {
    assert_eq!(exp.len(), act.len());
    for i in 0..exp.len() {
        assert!((exp[i] - act[i].0).abs() < 0.001, "expected {} but got {}", exp[i], act[i].0);
    }
}

#[test]
fn double_precision_gives_the_same_components() {
    let series: Vec<D> = SERIES.iter().map(|&v| D(v)).collect();
    let result = Stl::fit(&series, 7).unwrap();
    close(
        &[0.36926576, 0.75655484, -1.3324139, 1.9553658, -0.6044802],
        &result.seasonal()[..5],
    );
    close(&[4.804099, 4.9097075, 5.015316, 5.16045, 5.305584], &result.trend()[..5]);
    close(
        &[-0.17336464, 3.3337379, -1.6829021, 1.8841844, -4.7011037],
        &result.remainder()[..5],
    );
    let robust = Stl::params().robust(true).fit(&series, 7).unwrap();
    close(
        &[0.99374926, 0.8129377, 0.9385952, 0.9458036, 0.29742217],
        &robust.weights()[..5],
    );
    let multi = Mstl::fit(&series, &[6, 10]).unwrap();
    close(&[5.139485, 5.223691, 5.3078976, 5.387292, 5.4666862], &multi.trend()[..5]);
}

#[test]
fn any_arithmetic_is_survived() {
    let series: Vec<Moody> = SERIES.iter().map(|&v| Moody(v as f32)).collect();
    for round in 0..200 {
        let period = 2 + round % 14;
        let result = Stl::params()
            .robust(round % 2 == 0)
            .outer_loops(round % 4)
            .inner_loops(1 + round % 3)
            .seasonal_jump(1 + round % 5)
            .trend_jump(1 + round % 7)
            .low_pass_jump(1 + round % 3)
            .trend_degree((round % 2) as i32)
            .seasonal_length(3 + 2 * (round % 20))
            .trend_length(3 + 2 * (round % 25))
            .fit(&series, period)
            .unwrap();
        assert_eq!(result.seasonal().len(), 30);
        assert_eq!(result.trend().len(), 30);
        assert_eq!(result.remainder().len(), 30);
        assert_eq!(result.weights().len(), 30);
        let _ = result.seasonal_strength();
        let _ = result.trend_strength();
    }
    for round in 0..50 {
        let result = Mstl::params()
            .lambda(Moody(0.5))
            .iterations(1 + round % 3)
            .fit(&series, &[3 + round % 5, 2 + round % 9, 15]);
        if let Ok(r) = result {
            assert_eq!(r.seasonal().len(), 3);
            assert_eq!(r.seasonal_strength().len(), 3);
            assert_eq!(r.remainder().len(), 30);
        }
    }
}
