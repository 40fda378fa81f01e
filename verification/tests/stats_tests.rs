use coordination::stats::{median, mode, sum};

fn sample() -> Vec<i32> {
    vec![1, 2, 3, 4, 4, 4, 4, 4, 5, 5, 5, 6, 7, 8, 9]
}

#[test]
fn median_of_the_sample() {
    assert_eq!(median(&sample()), 4);
}

#[test]
fn median_sorts_before_it_picks() {
    assert_eq!(median(&vec![5, 1, 3]), 3);
    assert_eq!(median(&vec![9, -7, 8, -6, 0]), 0);
    assert_eq!(median(&vec![42]), 42);
}

#[test]
fn median_of_an_even_number_is_the_upper_middle() {
    assert_eq!(median(&vec![4, 1, 3, 2]), 3);
    assert_eq!(median(&vec![2, 1]), 2);
}

#[test]
fn median_leaves_the_list_as_it_was() {
    let v = vec![3, 1, 2];
    assert_eq!(median(&v), 2);
    assert_eq!(v, vec![3, 1, 2]);
}

#[test]
fn mode_of_the_sample() {
    assert_eq!(mode(&sample()), (4, 5));
}

#[test]
fn mode_of_the_empty_list_is_zero_times_zero() {
    assert_eq!(mode(&vec![]), (0, 0));
}

#[test]
fn mode_of_a_tie_is_the_number_that_stands_first() {
    assert_eq!(mode(&vec![2, 1, 1, 2]), (2, 2));
    assert_eq!(mode(&vec![7, 8, 9]), (7, 1));
    assert_eq!(mode(&vec![-3, 5, 5, -3, 5]), (5, 3));
}

#[test]
fn sum_of_the_sample() {
    assert_eq!(sum(&sample()), 71);
    assert_eq!(sum(&vec![]), 0);
    assert_eq!(sum(&vec![i32::MAX, -1, i32::MIN + 1]), -1);
    assert_eq!(sum(&sample()) as f32 / sample().len() as f32, 71.0 / 15.0);
}
