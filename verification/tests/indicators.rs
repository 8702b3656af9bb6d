use piwfs::average::Average;
use piwfs::covariance::Covariance;
use piwfs::indicator::Indicator;
use piwfs::median::Median;
use piwfs::regression::LinearRegression;
use piwfs::sum::Sum;
use piwfs::variance::Variance;
use rand::Rng;
use std::collections::VecDeque;

const SIZE: usize = 10000;
const ITERS: usize = 10;

fn sample(rng: &mut rand::rngs::ThreadRng) -> i64 {
    rng.gen_range(-30_000..30_000)
}

#[test]
fn test_sum() {
    let mut rng = rand::thread_rng();
    let mut test_queue = VecDeque::<i64>::with_capacity(SIZE);
    let mut test_indicator = Sum::new(SIZE).unwrap();
    for iter in 0..ITERS {
        for el in 0..SIZE {
            let val: i64 = rng.gen_range(-1_000_000..1_000_000);
            test_queue.push_front(val);
            if iter > 0 {
                test_queue.pop_back();
            }
            test_indicator.next(val);
            let lval: i64 = test_queue.iter().sum();
            let rval = test_indicator.value().unwrap();
            assert_eq!(lval, rval, "after {} operations", iter * SIZE + el);
        }
    }
}

#[test]
fn test_average() {
    let mut rng = rand::thread_rng();
    let mut test_queue = VecDeque::<i64>::with_capacity(SIZE);
    let mut test_indicator = Average::new(SIZE).unwrap();
    for iter in 0..ITERS {
        for el in 0..SIZE {
            let val: i64 = rng.gen_range(-1_000_000..1_000_000);
            test_queue.push_front(val);
            if iter > 0 {
                test_queue.pop_back();
            }
            test_indicator.next(val);
            let lval: i64 = test_queue.iter().sum::<i64>() / (test_queue.len() as i64);
            let rval = test_indicator.value().unwrap();
            assert_eq!(lval, rval, "after {} operations", iter * SIZE + el);
        }
    }
}

#[test]
fn test_variance() {
    let mut rng = rand::thread_rng();
    let mut test_queue = VecDeque::<i64>::with_capacity(SIZE);
    let mut test_indicator = Variance::new(SIZE).unwrap();
    for iter in 0..ITERS {
        for el in 0..SIZE {
            let val = sample(&mut rng);
            test_queue.push_front(val);
            if iter > 0 {
                test_queue.pop_back();
            }
            assert!(test_indicator.admits(val));
            test_indicator.next(val);
            let len = test_queue.len() as i64;
            let sum = test_queue.iter().sum::<i64>();
            let squares = test_queue.iter().fold(0, |acc, el| acc + el * el);
            assert!(test_indicator.reads());
            if let Some(rval) = test_indicator.value() {
                // The sum of the squared deviations from the mean, over one
                // less than the number of elements.
                let lval = (len * squares - sum * sum) / (len * (len - 1));
                assert_eq!(lval, rval, "after {} operations", iter * SIZE + el);
            } else {
                assert!(len < 2);
            }
            assert_eq!(test_indicator.average(), Some(sum / len));
        }
    }
}

#[test]
fn test_covariance() {
    let mut rng = rand::thread_rng();
    let mut test_queue = VecDeque::<(i64, i64)>::with_capacity(SIZE);
    let mut test_indicator = Covariance::new(SIZE).unwrap();
    for iter in 0..ITERS {
        for el in 0..SIZE {
            let val1 = sample(&mut rng);
            let val2 = sample(&mut rng);
            test_queue.push_front((val1, val2));
            if iter > 0 {
                test_queue.pop_back();
            }
            assert!(test_indicator.admits((val1, val2)));
            test_indicator.next((val1, val2));
            let len = test_queue.len() as i64;
            let (sum1, sum2, products) = test_queue
                .iter()
                .fold((0, 0, 0), |acc, (el1, el2)| (acc.0 + el1, acc.1 + el2, acc.2 + el1 * el2));
            assert!(test_indicator.reads());
            if let Some(rval) = test_indicator.value() {
                let lval = (len * products - sum1 * sum2) / (len * (len - 1));
                assert_eq!(lval, rval, "after {} operations", iter * SIZE + el);
            } else {
                assert!(len < 2);
            }
        }
    }
}

#[test]
fn test_linear_regression() {
    let mut rng = rand::thread_rng();
    let mut test_queue = VecDeque::<(i64, i64)>::with_capacity(SIZE);
    let mut test_indicator = LinearRegression::new(SIZE).unwrap();
    for iter in 0..ITERS {
        for el in 0..SIZE {
            let x = sample(&mut rng);
            let y = sample(&mut rng);
            test_queue.push_front((x, y));
            if iter > 0 {
                test_queue.pop_back();
            }
            assert!(test_indicator.admits((x, y)));
            test_indicator.next((x, y));
            let len = test_queue.len() as i64;
            let (sxy, sx, sy, sxx) = test_queue.iter().fold((0, 0, 0, 0), |acc, (x1, y1)| {
                (acc.0 + x1 * y1, acc.1 + x1, acc.2 + y1, acc.3 + x1 * x1)
            });
            assert!(test_indicator.reads());
            if let Some((r_a, r_b)) = test_indicator.value() {
                let l_b = (len * sxy - sx * sy) / (len * sxx - sx * sx);
                let l_a = (sy - l_b * sx) / len;
                assert_eq!(l_b, r_b, "B after {} operations", iter * SIZE + el);
                assert_eq!(l_a, r_a, "A after {} operations", iter * SIZE + el);
            } else {
                assert!(len < 2 || len * sxx - sx * sx == 0);
            }
        }
    }
}

#[test]
fn test_median() {
    const SIZE: usize = 1000;
    let mut rng = rand::thread_rng();
    let mut test_queue = VecDeque::<i64>::with_capacity(SIZE);
    let mut test_indicator = Median::new(SIZE).unwrap();
    for iter in 0..ITERS {
        for el in 0..SIZE {
            let val: i64 = rng.gen_range(-1_000_000..1_000_000);
            test_queue.push_front(val);
            if iter > 0 {
                test_queue.pop_back();
            }
            test_indicator.next(val);
            let len = test_queue.len();
            let mut tqvec: Vec<i64> = test_queue.iter().map(|el| *el).collect();
            tqvec.sort();
            let lval = if len % 2 == 0 {
                (tqvec[len / 2] + tqvec[len / 2 - 1]) / 2
            } else {
                tqvec[len / 2]
            };
            let rval = test_indicator.value().unwrap();
            assert_eq!(lval, rval, "after {} operations", iter * SIZE + el);
        }
    }
}

#[test]
fn median_of_small_windows_of_every_size() {
    let mut rng = rand::thread_rng();
    for size in 1..40 {
        let mut window = VecDeque::<i32>::new();
        let mut indicator = Median::new(size).unwrap();
        for _ in 0..500 {
            let x: i32 = rng.gen_range(-50..50);
            if window.len() == size {
                window.pop_front();
            }
            window.push_back(x);
            indicator.next(x);
            let mut sorted: Vec<i32> = window.iter().copied().collect();
            sorted.sort();
            let len = sorted.len();
            let expected = if len % 2 == 0 {
                (sorted[len / 2] + sorted[len / 2 - 1]) / 2
            } else {
                sorted[len / 2]
            };
            assert!(indicator.reads());
            assert_eq!(indicator.value(), Some(expected));
        }
    }
}
