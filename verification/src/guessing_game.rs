//! A number guessing game: a secret between 1 and 100, and for every line
//! that the player enters a judgement on it.
//!
//! The game reads and prints nothing itself. Its caller hands it one line at a
//! time and shows what comes back, until a turn says that the game is over.

use crate::decimal::{digits_value, lemma_digits_round_trip, nat_digits};
use rand::rngs::ThreadRng;
use rand::Rng;
use std::cmp::Ordering;
use vstd::prelude::*;
use vstd::string::*;
use vstd::utf8::*;

verus! {

/// The smallest secret.
pub const LOWEST: u32 = 1;

/// The largest secret.
pub const HIGHEST: u32 = 100;

/// `rand::rngs::ThreadRng`, the handle to a thread's random number generator.
/// Nothing of its state is visible here.
#[verifier::external_type_specification]
#[verifier::external_body]
pub struct ExThreadRng(ThreadRng);

/// `rand::thread_rng` hands out the calling thread's generator, which the
/// operating system seeds when the thread first asks for it. Nothing is
/// claimed of the generator.
pub assume_specification[ rand::thread_rng ]() -> (rng: ThreadRng);

/// `rand::Rng::gen_range` on `u32` draws a number from `low` up to, but
/// without, `high`. It asks for `low < high`. Which number comes is left open.
#[verifier::external_body]
fn gen_range(rng: &mut ThreadRng, low: u32, high: u32) -> (number: u32)
    requires
        low < high,
    ensures
        low <= number < high,
{
    rng.gen_range(low, high)
}

/// What `str::trim` makes of a text: the text without the white space at its
/// two ends, white space being what Unicode calls so.
pub uninterp spec fn trimmed(text: Seq<char>) -> Seq<char>;

/// `str::trim` gives the part of the text that is left when the white space at
/// both ends is taken away.
pub assume_specification[ str::trim ](text: &str) -> (inner: &str)
    ensures
        inner@ == trimmed(text@),
;

/// How a guess stands to the secret.
#[derive(Clone, Copy, Debug, PartialEq, Eq, Structural)]
pub enum Hint {
    TooSmall,
    TooBig,
    Correct,
}

/// What one line of input comes to.
#[derive(Clone, Copy, Debug, PartialEq, Eq, Structural)]
pub enum Turn {
    /// The line is no number: the player is asked again.
    Invalid,
    /// The line is the number `guess`, and `hint` compares it with the secret.
    Guessed { guess: u32, hint: Hint },
}

/// Every character is one of the ten decimal digits.
pub open spec fn all_digits(text: Seq<char>) -> bool {
    forall|i: int| 0 <= i < text.len() ==> '0' <= #[trigger] text[i] <= '9'
}

/// The digits of a number's text: what follows one leading plus sign, or all
/// of the text where it begins with none.
pub open spec fn unsigned_part(text: Seq<char>) -> Seq<char> {
    if text.len() > 0 && text[0] == '+' {
        text.drop_first()
    } else {
        text
    }
}

/// The number that a text denotes: at least one decimal digit, with at most
/// one plus sign before them and nothing else around them, whose value fits in
/// 32 bits. Any other text denotes no number.
pub open spec fn number_of(text: Seq<char>) -> Option<u32> {
    let digits = unsigned_part(text);
    if digits.len() > 0 && all_digits(digits) && digits_value(digits) <= u32::MAX {
        Some(digits_value(digits) as u32)
    } else {
        None
    }
}

/// The hint for a guess.
pub open spec fn hint_for(guess: u32, secret: u32) -> Hint {
    if guess < secret {
        Hint::TooSmall
    } else if guess > secret {
        Hint::TooBig
    } else {
        Hint::Correct
    }
}

/// The turn that an entry, already trimmed, comes to.
pub open spec fn turn_of(secret: u32, entry: Seq<char>) -> Turn {
    match number_of(entry) {
        None => Turn::Invalid,
        Some(guess) => Turn::Guessed { guess, hint: hint_for(guess, secret) },
    }
}

/// A longer sequence of digits denotes at least as much as any of its
/// beginnings.
proof fn lemma_value_grows(digits: Seq<char>, k: int)
    requires
        all_digits(digits),
        0 <= k <= digits.len(),
    ensures
        digits_value(digits.subrange(0, k)) <= digits_value(digits),
    decreases digits.len() - k,
{
    if k == digits.len() {
        assert(digits.subrange(0, k) =~= digits);
    } else {
        lemma_value_grows(digits, k + 1);
        let longer = digits.subrange(0, k + 1);
        assert(longer.drop_last() =~= digits.subrange(0, k));
        assert('0' <= longer.last() <= '9');
    }
}

/// The decimal notation of a number that fits in 32 bits denotes that number.
pub proof fn lemma_number_of_digits(n: u32)
    ensures
        number_of(nat_digits(n as nat)) == Some(n),
{
    lemma_digits_round_trip(n as nat);
    let digits = nat_digits(n as nat);
    assert('0' <= digits[0] <= '9');
}

impl Hint {
    /// The sentence that tells the player how the guess stands.
    pub open spec fn sentence(self) -> Seq<char> {
        match self {
            Hint::TooSmall => "너무 작음"@,
            Hint::TooBig => "너무 큼"@,
            Hint::Correct => "님이 맞춤"@,
        }
    }

    /// Tells the player how the guess stands.
    pub fn message(&self) -> (sentence: &'static str)
        ensures
            sentence@ == self.sentence(),
    {
        match self {
            Hint::TooSmall => "너무 작음",
            Hint::TooBig => "너무 큼",
            Hint::Correct => "님이 맞춤",
        }
    }
}

impl Turn {
    /// The game ends with the turn that guesses the secret.
    pub fn is_last(&self) -> (over: bool)
        ensures
            over <==> (*self matches Turn::Guessed { hint, .. } && hint == Hint::Correct),
    {
        match self {
            Turn::Guessed { hint: Hint::Correct, .. } => true,
            _ => false,
        }
    }
}

/// Draws the secret of a new game.
pub fn secret_number() -> (secret: u32)
    ensures
        LOWEST <= secret <= HIGHEST,
{
    let mut rng = rand::thread_rng();
    gen_range(&mut rng, LOWEST, HIGHEST + 1)
}

/// Compares a guess with the secret.
pub fn compare(guess: u32, secret: u32) -> (hint: Hint)
    ensures
        hint == hint_for(guess, secret),
{
    match guess.cmp(&secret) {
        Ordering::Less => Hint::TooSmall,
        Ordering::Greater => Hint::TooBig,
        Ordering::Equal => Hint::Correct,
    }
}

/// Reads a text as a number.
pub fn parse_number(text: &str) -> (number: Option<u32>)
    ensures
        number == number_of(text@),
{
    let ghost digits = unsigned_part(text@);
    if !text.is_ascii() {
        proof {
            let i = choose|i: int|
                0 <= i < text@.len() && !('\0' <= #[trigger] text@[i] <= '\u{7f}');
            if i == 0 {
                assert(digits[0] == text@[0]);
            } else if text@[0] == '+' {
                assert(digits[i - 1] == text@[i]);
            } else {
                assert(digits[i] == text@[i]);
            }
        }
        return None;
    }
    let bytes = text.as_bytes();
    proof {
        is_ascii_spec_bytes(text);
    }
    let len = bytes.len();
    let first: usize = if len > 0 && bytes[0] == 0x2b {
        1
    } else {
        0
    };
    assert(first == 1 <==> (text@.len() > 0 && text@[0] == '+'));
    assert(digits =~= text@.subrange(first as int, len as int));
    if first == len {
        return None;
    }
    let mut value: u32 = 0;
    let mut i: usize = first;
    while i < len
        invariant
            len == text@.len(),
            len == bytes@.len(),
            is_ascii_chars(text@),
            forall|j: int| 0 <= j < len ==> text@[j] as u8 == #[trigger] bytes@[j],
            digits == unsigned_part(text@),
            digits == text@.subrange(first as int, len as int),
            first <= i <= len,
            all_digits(digits.subrange(0, i - first)),
            value == digits_value(digits.subrange(0, i - first)),
        decreases len - i,
    {
        let byte = bytes[i];
        let ghost shorter = digits.subrange(0, i - first);
        let ghost longer = digits.subrange(0, i + 1 - first);
        assert(digits[i - first] == text@[i as int]);
        assert(text@[i as int] as u8 == byte);
        if byte < 0x30 || byte > 0x39 {
            assert(!('0' <= digits[i - first] <= '9'));
            return None;
        }
        let digit: u32 = (byte - 0x30) as u32;
        proof {
            assert('0' <= text@[i as int] <= '9');
            assert(longer.drop_last() =~= shorter);
            assert(longer.last() == text@[i as int]);
            assert(digits_value(longer) == 10 * value + digit);
            assert(all_digits(longer)) by {
                assert forall|j: int| 0 <= j < longer.len() implies '0' <= #[trigger] longer[j]
                    <= '9' by {
                    if j < shorter.len() {
                        assert(longer[j] == shorter[j]);
                    }
                }
            }
        }
        if value > (u32::MAX - digit) / 10 {
            proof {
                assert(10 * value + digit > u32::MAX);
                if all_digits(digits) {
                    lemma_value_grows(digits, i + 1 - first);
                }
            }
            return None;
        }
        value = value * 10 + digit;
        i += 1;
    }
    assert(digits.subrange(0, i - first) =~= digits);
    Some(value)
}

/// Judges an entry from which the white space around it has been taken away.
pub fn judge(secret: u32, entry: &str) -> (turn: Turn)
    ensures
        turn == turn_of(secret, entry@),
{
    match parse_number(entry) {
        None => Turn::Invalid,
        Some(guess) => Turn::Guessed { guess, hint: compare(guess, secret) },
    }
}

/// Plays one turn: judges the line that the player entered, white space at its
/// ends set aside.
pub fn play(secret: u32, line: &str) -> (turn: Turn)
    ensures
        turn == turn_of(secret, trimmed(line@)),
{
    judge(secret, line.trim())
}

} // verus!
