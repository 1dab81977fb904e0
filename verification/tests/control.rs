use rust_basics::control::{count_down, count_up, descending, divisor_message, is_even, parity_message};

#[test]
fn ten_is_a_multiple_of_two() {
    assert_eq!(divisor_message(10), "number는 2의 배수입니다.");
}

#[test]
fn the_first_divisor_that_fits_is_named() {
    assert_eq!(divisor_message(12), "number는 4의 배수입니다.");
    assert_eq!(divisor_message(8), "number는 4의 배수입니다.");
    assert_eq!(divisor_message(9), "number는 3의 배수입니다.");
    assert_eq!(divisor_message(6), "number는 3의 배수입니다.");
    assert_eq!(divisor_message(2), "number는 2의 배수입니다.");
    assert_eq!(divisor_message(7), "number는 4, 3, 2로 나눌 수 없습니다.");
    assert_eq!(divisor_message(1), "number는 4, 3, 2로 나눌 수 없습니다.");
}

#[test]
fn zero_and_negative_numbers_have_divisors_too() {
    assert_eq!(divisor_message(0), "number는 4의 배수입니다.");
    assert_eq!(divisor_message(-4), "number는 4의 배수입니다.");
    assert_eq!(divisor_message(-9), "number는 3의 배수입니다.");
    assert_eq!(divisor_message(-10), "number는 2의 배수입니다.");
    assert_eq!(divisor_message(-7), "number는 4, 3, 2로 나눌 수 없습니다.");
    assert_eq!(divisor_message(i32::MIN), "number는 4의 배수입니다.");
    assert_eq!(divisor_message(i32::MAX), "number는 4, 3, 2로 나눌 수 없습니다.");
}

#[test]
fn parity() {
    assert!(is_even(10));
    assert!(is_even(0));
    assert!(is_even(-2));
    assert!(is_even(i32::MIN));
    assert!(!is_even(7));
    assert!(!is_even(-1));
    assert!(!is_even(i32::MAX));
}

#[test]
fn parity_in_words() {
    assert_eq!(parity_message(10), "10 is even");
    assert_eq!(parity_message(7), "7 is odd");
    assert_eq!(parity_message(0), "0 is even");
    assert_eq!(parity_message(-3), "-3 is odd");
    assert_eq!(parity_message(i32::MIN), "-2147483648 is even");
}

#[test]
fn counting_down_from_five() {
    assert_eq!(count_down(5), vec![4, 3, 2, 1, 0]);
}

#[test]
fn counting_down_from_zero_takes_no_step() {
    assert_eq!(count_down(0), Vec::<i32>::new());
    assert_eq!(count_down(1), vec![0]);
}

#[test]
fn counting_up_to_five() {
    assert_eq!(count_up(0, 5), vec![1, 2, 3, 4, 5]);
}

#[test]
fn counting_up_between_other_bounds() {
    assert_eq!(count_up(5, 5), Vec::<i32>::new());
    assert_eq!(count_up(-2, 1), vec![-1, 0, 1]);
    assert_eq!(count_up(i32::MAX - 1, i32::MAX), vec![i32::MAX]);
}

#[test]
fn down_and_up_meet() {
    let down = count_down(5);
    let up = count_up(*down.last().unwrap(), 5);
    assert_eq!(*up.last().unwrap(), 5);
    assert_eq!(down.len(), up.len());
}

#[test]
fn one_to_ten_reversed() {
    assert_eq!(descending(1, 10), vec![9, 8, 7, 6, 5, 4, 3, 2, 1]);
}

#[test]
fn reversed_empty_ranges() {
    assert_eq!(descending(3, 3), Vec::<i32>::new());
    assert_eq!(descending(4, 3), Vec::<i32>::new());
    assert_eq!(descending(i32::MAX, i32::MIN), Vec::<i32>::new());
}

#[test]
fn reversed_ranges_at_the_limits() {
    assert_eq!(descending(-1, 2), vec![1, 0, -1]);
    assert_eq!(descending(i32::MIN, i32::MIN + 2), vec![i32::MIN + 1, i32::MIN]);
    assert_eq!(descending(i32::MAX - 1, i32::MAX), vec![i32::MAX - 1]);
}
