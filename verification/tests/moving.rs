use piwfs::indicator::{Indicator, IndicatorError};
use piwfs::moving::{
    MovingSum, OrdinaryLeastSquares, SimpleMovingAverage, SlidingMedianFilter,
    WelfordsMovingVariance,
};
use piwfs::regression::LinearRegression;
use rand::Rng;
use std::collections::VecDeque;

#[test]
fn least_squares_from_sums_follows_the_formulas() {
    const SIZE: usize = 50;
    let mut rng = rand::thread_rng();
    let mut window = VecDeque::<(i64, i64)>::new();
    let mut line = OrdinaryLeastSquares::<i64>::new(SIZE).unwrap();
    assert_eq!(line.value(), None);
    for _ in 0..20 * SIZE {
        let point: (i64, i64) = (rng.gen_range(-1000..1000), rng.gen_range(-1000..1000));
        if window.len() == SIZE {
            window.pop_front();
        }
        window.push_back(point);
        assert!(line.admits(point));
        line.next(point);
        let n = window.len() as i64;
        let (sxy, sx, sy, sxx) = window.iter().fold((0, 0, 0, 0), |acc, (x, y)| {
            (acc.0 + x * y, acc.1 + x, acc.2 + y, acc.3 + x * x)
        });
        assert!(line.reads());
        if n * sxx - sx * sx == 0 {
            assert_eq!(line.value(), None);
        } else {
            let b = (n * sxy - sx * sy) / (n * sxx - sx * sx);
            let a = (sy - b * sx) / n;
            assert_eq!(line.value(), Some((a, b)));
        }
    }
}

#[test]
fn both_regressions_agree() {
    const SIZE: usize = 60;
    let mut rng = rand::thread_rng();
    let mut from_sums = OrdinaryLeastSquares::<i64>::new(SIZE).unwrap();
    let mut from_means = LinearRegression::<i64>::new(SIZE).unwrap();
    for k in 0..1000 {
        let point: (i64, i64) = (rng.gen_range(-1000..1000), rng.gen_range(-1000..1000));
        from_sums.next(point);
        from_means.next(point);
        if k > 0 {
            assert_eq!(from_sums.value(), from_means.value());
        }
    }
}

#[test]
fn least_squares_from_sums_on_a_line() {
    let mut line = OrdinaryLeastSquares::<i64>::new(100).unwrap();
    for i in 0..100 {
        line.next((i, 2 * i + 1));
        if i == 0 {
            // One point determines no line.
            assert_eq!(line.value(), None);
        } else {
            assert_eq!(line.value(), Some((1, 2)));
        }
    }
    assert_eq!(
        OrdinaryLeastSquares::<i64>::new(0).err(),
        Some(IndicatorError::InvalidSize)
    );
}

#[test]
fn least_squares_from_sums_tells_what_does_not_fit() {
    let mut line = OrdinaryLeastSquares::<i8>::new(2).unwrap();
    assert!(line.admits((11, 3)));
    assert!(!line.admits((12, 3)));
    assert!(!line.admits((3, -12)));
    line.next((10, 1));
    assert!(line.reads());
    assert!(line.admits((1, 1)));
    assert!(!line.admits((6, 1)));
    line.next((1, 1));
    // Twice the sum of the squares, 202, is not a number of eight bits.
    assert!(!line.reads());
    line.next((2, 3));
    assert!(line.reads());
    assert_eq!(line.value(), Some((-1, 2)));
}

#[test]
fn names_of_the_moving_window() {
    let mut sum = MovingSum::<i32>::new(2).unwrap();
    let mut average = SimpleMovingAverage::<i32>::new(2).unwrap();
    let mut variance = WelfordsMovingVariance::<i32>::new(2).unwrap();
    let mut median = SlidingMedianFilter::<i32>::new(2).unwrap();
    for x in [4, 8, 2] {
        sum.next(x);
        average.next(x);
        variance.next(x);
        median.next(x);
    }
    assert_eq!(sum.value(), Some(10));
    assert_eq!(average.value(), Some(5));
    assert_eq!(variance.average(), Some(5));
    assert_eq!(variance.value(), Some(18));
    assert_eq!(median.value(), Some(5));
}
