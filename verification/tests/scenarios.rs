use piwfs::average::Average;
use piwfs::covariance::Covariance;
use piwfs::indicator::{Indicator, IndicatorError};
use piwfs::median::Median;
use piwfs::number::{Exact, Identity};
use piwfs::regression::LinearRegression;
use piwfs::sum::Sum;
use piwfs::variance::Variance;
use piwfs::window::RotVec;

#[test]
fn sum_of_three_over_four_arrivals() {
    let mut sum = Sum::<i32>::new(3).unwrap();
    let mut window = RotVec::<i32>::with_capacity(3);
    let mut values = Vec::new();
    let mut evicted = Vec::new();
    for x in [1, 2, 3, 4] {
        sum.next(x);
        values.push(sum.value());
        evicted.push(window.popush(x));
    }
    assert_eq!(values, vec![Some(1), Some(3), Some(6), Some(9)]);
    assert_eq!(evicted, vec![None, None, None, Some(1)]);
}

#[test]
fn median_of_five_over_six_arrivals() {
    let mut median = Median::<i32>::new(5).unwrap();
    let mut values = Vec::new();
    for x in [5, 2, 8, 1, 9, 3] {
        median.next(x);
        values.push(median.value().unwrap());
    }
    // The means of two middle elements, 3.5, come out rounded toward zero.
    assert_eq!(values, vec![5, 3, 5, 3, 5, 3]);
}

#[test]
fn median_rounds_toward_zero() {
    let mut median = Median::<i32>::new(2).unwrap();
    median.next(-3);
    median.next(-4);
    assert_eq!(median.value(), Some(-3));
    median.next(4);
    assert_eq!(median.value(), Some(0));
    median.next(3);
    assert_eq!(median.value(), Some(3));
}

#[test]
fn regression_recovers_a_line() {
    let mut line = LinearRegression::<i64>::new(100).unwrap();
    for i in 0..100 {
        assert!(line.admits((i, 2 * i + 1)));
        line.next((i, 2 * i + 1));
        assert!(line.reads());
        if i == 0 {
            assert_eq!(line.value(), None);
        } else {
            assert_eq!(line.value(), Some((1, 2)));
        }
    }
}

#[test]
fn regression_of_a_sliding_window() {
    // The line through the last two points only.
    let mut line = LinearRegression::<i64>::new(2).unwrap();
    line.next((0, 0));
    line.next((1, 5));
    assert_eq!(line.value(), Some((0, 5)));
    line.next((2, 7));
    assert_eq!(line.value(), Some((3, 2)));
    // y = -3 x + 7 read through a window of 4.
    let mut line = LinearRegression::<i64>::new(4).unwrap();
    for x in 0..50 {
        line.next((x, 7 - 3 * x));
        if x > 0 {
            assert_eq!(line.value(), Some((7, -3)));
        }
    }
}

#[test]
fn variance_of_a_sliding_window() {
    let mut variance = Variance::<i64>::new(3).unwrap();
    variance.next(1);
    assert_eq!(variance.value(), None);
    variance.next(2);
    // One half, rounded toward zero.
    assert_eq!(variance.value(), Some(0));
    variance.next(6);
    assert_eq!(variance.value(), Some(7));
    assert_eq!(variance.average(), Some(3));
    assert_eq!(variance.spread(), Some(42));
    variance.next(4);
    assert_eq!(variance.value(), Some(4));
    assert_eq!(variance.average(), Some(4));
}

#[test]
fn covariance_of_a_sliding_window() {
    let mut covariance = Covariance::<i64>::new(3).unwrap();
    covariance.next((1, 2));
    assert_eq!(covariance.value(), None);
    covariance.next((2, 4));
    assert_eq!(covariance.value(), Some(1));
    covariance.next((6, 12));
    assert_eq!(covariance.value(), Some(14));
    assert_eq!(covariance.comoment(), Some(84));
    covariance.next((4, 8));
    assert_eq!(covariance.value(), Some(8));
    // Ordinates that fall as the abscissas rise.
    let mut covariance = Covariance::<i64>::new(3).unwrap();
    covariance.next((1, 5));
    covariance.next((3, 2));
    assert_eq!(covariance.value(), Some(-3));
}

#[test]
fn regression_reads_nothing_of_equal_abscissas() {
    let mut line = LinearRegression::<i64>::new(5).unwrap();
    for y in [3, 9, 4] {
        line.next((7, y));
        assert_eq!(line.value(), None);
    }
    line.next((8, 4));
    assert!(line.value().is_some());
}

#[test]
fn sizes_that_are_refused() {
    assert_eq!(Sum::<i64>::new(0).err(), Some(IndicatorError::InvalidSize));
    assert_eq!(Average::<i64>::new(0).err(), Some(IndicatorError::InvalidSize));
    assert_eq!(Variance::<i64>::new(0).err(), Some(IndicatorError::InvalidSize));
    assert_eq!(Covariance::<i64>::new(0).err(), Some(IndicatorError::InvalidSize));
    assert_eq!(LinearRegression::<i64>::new(0).err(), Some(IndicatorError::InvalidSize));
    assert_eq!(Median::<i64>::new(0).err(), Some(IndicatorError::InvalidSize));
    assert_eq!(Median::<i64>::new(usize::MAX).err(), Some(IndicatorError::SizeAtLimit));
    assert!(Sum::<i64>::new(1).is_ok());
    assert!(Median::<i64>::new(1).is_ok());
    assert_eq!(IndicatorError::InvalidSize.message(), "Size cannot be smaller than 1!");
    assert_eq!(
        IndicatorError::SizeAtLimit.message(),
        "Size cannot be smaller than 1 or equal to usize::MAX!"
    );
}

#[test]
fn nothing_to_read_before_enough_arrivals() {
    let mut sum = Sum::<i64>::new(4).unwrap();
    let mut average = Average::<i64>::new(4).unwrap();
    let mut variance = Variance::<i64>::new(4).unwrap();
    let mut covariance = Covariance::<i64>::new(4).unwrap();
    let mut line = LinearRegression::<i64>::new(4).unwrap();
    let mut median = Median::<i64>::new(4).unwrap();
    assert_eq!(sum.value(), None);
    assert_eq!(average.value(), None);
    assert_eq!(variance.value(), None);
    assert_eq!(variance.average(), None);
    assert_eq!(covariance.value(), None);
    assert_eq!(line.value(), None);
    assert_eq!(median.value(), None);
    sum.next(6);
    average.next(6);
    variance.next(6);
    covariance.next((6, 2));
    line.next((6, 2));
    median.next(6);
    assert_eq!(sum.value(), Some(6));
    assert_eq!(average.value(), Some(6));
    assert_eq!(variance.value(), None);
    assert_eq!(variance.average(), Some(6));
    assert_eq!(covariance.value(), None);
    assert_eq!(line.value(), None);
    assert_eq!(median.value(), Some(6));
    variance.next(10);
    covariance.next((10, 8));
    line.next((10, 8));
    // Deviations of 2 and of 3 from the means 8 and 5; the slope 12 / 8
    // comes out rounded toward zero.
    assert_eq!(variance.value(), Some(8));
    assert_eq!(covariance.value(), Some(12));
    assert_eq!(line.value(), Some((-3, 1)));
}

#[test]
fn a_window_of_one_has_no_variance() {
    let mut variance = Variance::<i64>::new(1).unwrap();
    let mut covariance = Covariance::<i64>::new(1).unwrap();
    let mut line = LinearRegression::<i64>::new(1).unwrap();
    for x in [4, 9, 2] {
        variance.next(x);
        covariance.next((x, x));
        line.next((x, x));
        assert_eq!(variance.value(), None);
        assert_eq!(covariance.value(), None);
        assert_eq!(line.value(), None);
        assert_eq!(variance.average(), Some(x));
    }
}

#[test]
fn variance_with_a_mean_that_is_not_whole() {
    // The squared deviations of 0, 1 and 1 from two thirds sum to two
    // thirds; over two that is a third, which rounds to nothing.
    let mut variance = Variance::<i64>::new(3).unwrap();
    for x in [0, 1, 1] {
        variance.next(x);
    }
    assert_eq!(variance.average(), Some(0));
    assert_eq!(variance.value(), Some(0));
    // Of 0, 3 and 6 the mean is 3 and the variance 9; of 0, 4 and 6 the
    // variance is nine and a third.
    let mut variance = Variance::<i64>::new(3).unwrap();
    for x in [0, 3, 6] {
        variance.next(x);
    }
    assert_eq!(variance.value(), Some(9));
    variance.next(0);
    variance.next(4);
    variance.next(6);
    assert_eq!(variance.value(), Some(9));
    assert_eq!(variance.spread(), Some(3 * 52 - 100));
}

#[test]
fn average_rounds_toward_zero() {
    let mut average = Average::<i32>::new(2).unwrap();
    average.next(3);
    average.next(4);
    assert_eq!(average.value(), Some(3));
    average.next(-8);
    assert_eq!(average.value(), Some(-2));
    average.next(-7);
    assert_eq!(average.value(), Some(-7));
}

#[test]
fn window_keeps_the_latest() {
    for size in 1..6usize {
        let mut window = RotVec::<usize>::with_capacity(size);
        assert!(!window.full());
        assert_eq!(window.back(), None);
        assert_eq!(window.len(), 0);
        for k in 0..2 * size {
            let evicted = window.popush(k);
            if k < size {
                assert_eq!(evicted, None);
            } else {
                assert_eq!(evicted, Some(k - size));
            }
            assert_eq!(window.len(), (k + 1).min(size));
            assert_eq!(window.full(), k + 1 >= size);
            if k + 1 >= size {
                assert_eq!(window.back(), Some(k + 1 - size));
            } else {
                assert_eq!(window.back(), None);
            }
        }
    }
}

#[test]
fn arrivals_that_do_not_fit_are_told() {
    let mut sum = Sum::<i8>::new(3).unwrap();
    assert!(sum.admits(100));
    sum.next(100);
    assert!(!sum.admits(100));
    assert!(sum.admits(27));
    assert!(!sum.admits(28));
    assert_eq!(sum.after(27), Some(127));
    assert_eq!(sum.after(28), None);
    sum.next(27);
    assert_eq!(sum.value(), Some(127));

    // A window of 200 cannot be counted in eight bits.
    let mut average = Average::<i8>::new(200).unwrap();
    for _ in 0..127 {
        assert!(average.admits(0));
        average.next(0);
    }
    assert!(!average.admits(0));

    let mut variance = Variance::<i8>::new(3).unwrap();
    variance.next(0);
    assert!(variance.admits(11));
    // The square of 12 is not a number of eight bits.
    assert!(!variance.admits(12));
    variance.next(11);
    assert!(variance.admits(2));
    assert!(!variance.admits(3));
    // Twice the sum of the squares is not a number of eight bits.
    assert!(!variance.reads());
    assert_eq!(variance.spread(), None);
    let mut variance = Variance::<i8>::new(3).unwrap();
    variance.next(7);
    variance.next(1);
    assert!(variance.reads());
    assert_eq!(variance.value(), Some(18));

    let mut unsigned = Sum::<u8>::new(2).unwrap();
    unsigned.next(5);
    unsigned.next(9);
    // The difference between the arrival and the oldest element, 3 - 5, is
    // not a number without sign.
    assert!(!unsigned.admits(3));
    assert!(unsigned.admits(6));

    let mut median = Median::<i8>::new(2).unwrap();
    median.next(100);
    assert!(median.reads());
    median.next(100);
    assert!(!median.reads());
    median.next(-100);
    assert!(median.reads());
    assert_eq!(median.value(), Some(0));

    let mut line = LinearRegression::<i8>::new(3).unwrap();
    line.next((0, 0));
    assert!(line.admits((1, 100)));
    assert!(!line.admits((2, 100)));
    line.next((1, 100));
    // Twice the sum of the products is not a number of eight bits.
    assert!(!line.reads());
    let mut line = LinearRegression::<i8>::new(3).unwrap();
    line.next((0, 1));
    line.next((1, 4));
    assert!(line.reads());
    assert_eq!(line.value(), Some((1, 3)));
}

#[test]
fn neutral_elements() {
    assert_eq!(<i64 as Identity>::zero(), 0);
    assert_eq!(<i64 as Identity>::one(), 1);
    assert_eq!(<u8 as Identity>::zero(), 0);
    assert_eq!(<u8 as Identity>::one(), 1);
    assert_eq!(<i128 as Identity>::one(), 1);
    assert_eq!(<i8 as Exact>::checked_add(100, 27), Some(127));
    assert_eq!(<i8 as Exact>::checked_add(100, 28), None);
    assert_eq!(<u8 as Exact>::checked_sub(3, 5), None);
    assert_eq!(<i16 as Exact>::checked_mul(200, 200), None);
    assert_eq!(<i16 as Exact>::checked_mul(-100, 100), Some(-10000));
    assert_eq!(<i32 as Exact>::checked_div(-7, 2), Some(-3));
    assert_eq!(<i32 as Exact>::checked_div(7, -2), Some(-3));
    assert_eq!(<i32 as Exact>::checked_div(7, 0), None);
    assert_eq!(<i32 as Exact>::checked_div(i32::MIN, -1), None);
    assert_eq!(<u64 as Exact>::checked_div(7, 2), Some(3));
}
