//! Branches and loops over integers.

use crate::decimal::{int_digits, push_signed};
use vstd::prelude::*;
use vstd::string::*;

verus! {

/// What is said of a number by the largest of 4, 3 and 2 that divides it,
/// asked in that order.
pub open spec fn divisor_sentence(number: int) -> Seq<char> {
    if number % 4 == 0 {
        "number는 4의 배수입니다."@
    } else if number % 3 == 0 {
        "number는 3의 배수입니다."@
    } else if number % 2 == 0 {
        "number는 2의 배수입니다."@
    } else {
        "number는 4, 3, 2로 나눌 수 없습니다."@
    }
}

/// What is said of the parity of a number.
pub open spec fn parity_sentence(number: int) -> Seq<char> {
    if number % 2 == 0 {
        int_digits(number) + " is even"@
    } else {
        int_digits(number) + " is odd"@
    }
}

/// Says by which of 4, 3 and 2 the number can be divided; the first that fits
/// is named.
pub fn divisor_message(number: i32) -> (sentence: &'static str)
    ensures
        sentence@ == divisor_sentence(number as int),
{
    if number % 4 == 0 {
        "number는 4의 배수입니다."
    } else if number % 3 == 0 {
        "number는 3의 배수입니다."
    } else if number % 2 == 0 {
        "number는 2의 배수입니다."
    } else {
        "number는 4, 3, 2로 나눌 수 없습니다."
    }
}

/// Whether two divides the number.
pub fn is_even(number: i32) -> (even: bool)
    ensures
        even <==> number % 2 == 0,
{
    let is_even = if number % 2 == 0 {
        true
    } else {
        false
    };
    is_even
}

/// Says whether the number is even or odd.
pub fn parity_message(number: i32) -> (sentence: String)
    ensures
        sentence@ == parity_sentence(number as int),
{
    let mut sentence = String::new();
    push_signed(&mut sentence, number as i64);
    if is_even(number) {
        sentence.append(" is even");
    } else {
        sentence.append(" is odd");
    }
    assert(sentence@ =~= parity_sentence(number as int));
    sentence
}

/// Counts down from `start` to zero, one step at a time, and lists each value
/// that the counter takes after its step.
pub fn count_down(start: i32) -> (steps: Vec<i32>)
    requires
        start >= 0,
    ensures
        steps@ == Seq::new(start as nat, |k: int| (start - 1 - k) as i32),
{
    let mut steps: Vec<i32> = Vec::new();
    let mut loop_cnt: i32 = start;
    loop
        invariant
            0 <= loop_cnt <= start,
            steps@ =~= Seq::new((start - loop_cnt) as nat, |k: int| (start - 1 - k) as i32),
        ensures
            loop_cnt == 0,
        decreases loop_cnt,
    {
        if loop_cnt == 0 {
            break ;
        } else {
            loop_cnt = loop_cnt - 1;
            steps.push(loop_cnt);
        }
    }
    steps
}

/// Counts up from `start` until `goal` is reached, and lists each value that
/// the counter takes after its step.
pub fn count_up(start: i32, goal: i32) -> (steps: Vec<i32>)
    requires
        start <= goal,
    ensures
        steps@ == Seq::new((goal - start) as nat, |k: int| (start + 1 + k) as i32),
{
    let mut steps: Vec<i32> = Vec::new();
    let mut loop_cnt: i32 = start;
    while loop_cnt != goal
        invariant
            start <= loop_cnt <= goal,
            steps@ =~= Seq::new((loop_cnt - start) as nat, |k: int| (start + 1 + k) as i32),
        decreases goal - loop_cnt,
    {
        loop_cnt = loop_cnt + 1;
        steps.push(loop_cnt);
    }
    steps
}

/// The numbers from `low` up to, but without, `high`, listed from the largest
/// down; none where `high` is not above `low`.
pub fn descending(low: i32, high: i32) -> (numbers: Vec<i32>)
    ensures
        low < high ==> numbers@ == Seq::new((high - low) as nat, |k: int| (high - 1 - k) as i32),
        low >= high ==> numbers@.len() == 0,
{
    let mut numbers: Vec<i32> = Vec::new();
    if low >= high {
        return numbers;
    }
    let mut next: i32 = high;
    while next > low
        invariant
            low <= next <= high,
            numbers@ =~= Seq::new((high - next) as nat, |k: int| (high - 1 - k) as i32),
        decreases next - low,
    {
        next = next - 1;
        numbers.push(next);
    }
    numbers
}

} // verus!
