//! A guessing game: a secret between 1 and 100, and one verdict for each
//! line that the player enters.

use crate::text::{is_white_space, white_space};
use vstd::prelude::*;
use vstd::string::*;

verus! {

/// How many characters of white space `s` begins with.
pub open spec fn leading_white(s: Seq<char>) -> nat
    decreases s.len(),
{
    if s.len() > 0 && is_white_space(s[0]) {
        1 + leading_white(s.drop_first())
    } else {
        0
    }
}

/// How many characters of white space `s` ends with.
pub open spec fn trailing_white(s: Seq<char>) -> nat
    decreases s.len(),
{
    if s.len() > 0 && is_white_space(s.last()) {
        1 + trailing_white(s.drop_last())
    } else {
        0
    }
}

/// `s` without the white space at its beginning and at its end.
pub open spec fn trimmed(s: Seq<char>) -> Seq<char> {
    let rest = s.skip(leading_white(s) as int);
    rest.take(rest.len() - trailing_white(rest))
}

/// Whether `c` is one of the digits `0` to `9`.
pub open spec fn is_digit(c: char) -> bool {
    0x30 <= c as u32 <= 0x39
}

/// Whether `d` holds digits only.
pub open spec fn all_digits(d: Seq<char>) -> bool {
    forall|i: int| 0 <= i < d.len() ==> is_digit(#[trigger] d[i])
}

/// The number that the digits `d` spell in base ten.
pub open spec fn decimal(d: Seq<char>) -> nat
    decreases d.len(),
{
    if d.len() == 0 {
        0
    } else {
        decimal(d.drop_last()) * 10 + (d.last() as u32 - 0x30) as nat
    }
}

/// The number that `d` spells without a sign: one digit or more, the whole
/// not beyond the largest `u32`. Anything else spells no number.
pub open spec fn unsigned(d: Seq<char>) -> Option<u32> {
    if d.len() > 0 && all_digits(d) && decimal(d) <= u32::MAX {
        Some(decimal(d) as u32)
    } else {
        None
    }
}

/// The number that `s` spells: an optional `+`, then a number without a sign.
pub open spec fn parsed(s: Seq<char>) -> Option<u32> {
    if s.len() > 0 && s[0] == '+' {
        unsigned(s.skip(1))
    } else {
        unsigned(s)
    }
}

/// What the game says to one line of the player.
#[derive(Clone, Copy, Debug, PartialEq, Eq, Structural)]
pub enum Turn {
    /// The line spells no number: the player is asked again.
    Invalid,
    /// The guess is below the secret.
    TooSmall,
    /// The guess is above the secret.
    TooBig,
    /// The guess is the secret: the game is over.
    Correct,
}

/// What the game says to a guess, or to a line that spelt none.
pub open spec fn turn_of(guess: Option<u32>, secret: u32) -> Turn {
    match guess {
        None => Turn::Invalid,
        Some(n) => if n < secret {
            Turn::TooSmall
        } else if n > secret {
            Turn::TooBig
        } else {
            Turn::Correct
        },
    }
}

/// A run of `n` white-space characters that ends before a character that
/// is none, or at the end, is all the white space that `s` begins with.
pub proof fn lemma_leading_white(s: Seq<char>, n: int)
    requires
        0 <= n <= s.len(),
        forall|k: int| 0 <= k < n ==> is_white_space(#[trigger] s[k]),
        n < s.len() ==> !is_white_space(s[n]),
    ensures
        leading_white(s) == n,
    decreases n,
{
    if n > 0 {
        assert(is_white_space(s[0]));
        assert forall|k: int| 0 <= k < n - 1 implies is_white_space(
            #[trigger] s.drop_first()[k],
        ) by {
            assert(s.drop_first()[k] == s[k + 1]);
        }
        lemma_leading_white(s.drop_first(), n - 1);
    }
}

/// A run of `n` white-space characters at the end of `s` that begins after
/// a character that is none, or at the beginning, is all the white space
/// that `s` ends with.
pub proof fn lemma_trailing_white(s: Seq<char>, n: int)
    requires
        0 <= n <= s.len(),
        forall|k: int| s.len() - n <= k < s.len() ==> is_white_space(#[trigger] s[k]),
        n < s.len() ==> !is_white_space(s[s.len() - n - 1]),
    ensures
        trailing_white(s) == n,
    decreases n,
{
    if n > 0 {
        assert(is_white_space(s.last()));
        assert forall|k: int| s.drop_last().len() - (n - 1) <= k < s.drop_last().len() implies is_white_space(
            #[trigger] s.drop_last()[k],
        ) by {
            assert(s.drop_last()[k] == s[k]);
        }
        lemma_trailing_white(s.drop_last(), n - 1);
    }
}

/// More digits never spell a smaller number.
pub proof fn lemma_decimal_grows(d: Seq<char>, n: int)
    requires
        0 <= n <= d.len(),
        all_digits(d),
    ensures
        decimal(d.take(n)) <= decimal(d),
    decreases d.len() - n,
{
    if n < d.len() {
        lemma_decimal_grows(d, n + 1);
        assert(d.take(n + 1).drop_last() =~= d.take(n));
        assert(is_digit(d[n]));
    } else {
        assert(d.take(n) =~= d);
    }
}

/// The generator of random numbers that the `rand` crate keeps for each
/// thread, `rand::rngs::ThreadRng`. Nothing is known of what it holds.
#[verifier::external_type_specification]
#[verifier::external_body]
pub struct ExThreadRng(rand::rngs::ThreadRng);

/// `rand::thread_rng` hands out the generator of the calling thread.
/// Nothing is claimed of it. It gives up if the system has no randomness
/// to seed the generator with.
pub assume_specification[ rand::thread_rng ]() -> (generator: rand::rngs::ThreadRng);

/// Calls `Rng::gen_range` of the `rand` crate with the range from `low` up
/// to, and without, `high`. Trusted: the number lies in that range. Which
/// number of the range it is, is left open. An empty range is left out: on
/// it `gen_range` gives up.
#[verifier::external_body]
fn random_between(generator: &mut rand::rngs::ThreadRng, low: u32, high: u32) -> (n: u32)
    requires
        low < high,
    ensures
        low <= n < high,
{
    rand::Rng::gen_range(generator, low..high)
}

/// The characters of `s`.
fn chars_of(s: &str) -> (chars: Vec<char>)
    ensures
        chars@ == s@,
{
    let n = s.unicode_len();
    let mut chars: Vec<char> = Vec::new();
    let mut i: usize = 0;
    while i < n
        invariant
            i <= n,
            n == s@.len(),
            chars@ == s@.take(i as int),
        decreases n - i,
    {
        chars.push(s.get_char(i));
        assert(s@.take(i + 1) =~= s@.take(i as int).push(s@[i as int]));
        i = i + 1;
    }
    assert(s@.take(n as int) =~= s@);
    chars
}

/// Reads a guess from a line: the number that the line spells once the
/// white space around it is taken away, `None` if it spells none.
pub fn parse_guess(line: &str) -> (guess: Option<u32>)
    ensures
        guess == parsed(trimmed(line@)),
{
    let chars = chars_of(line);
    let mut start: usize = 0;
    while start < chars.len() && white_space(chars[start])
        invariant
            start <= chars@.len(),
            forall|k: int| 0 <= k < start ==> is_white_space(#[trigger] chars@[k]),
        decreases chars@.len() - start,
    {
        start = start + 1;
    }
    let mut end: usize = chars.len();
    while end > start && white_space(chars[end - 1])
        invariant
            start <= end <= chars@.len(),
            forall|k: int| end <= k < chars@.len() ==> is_white_space(#[trigger] chars@[k]),
        decreases end,
    {
        end = end - 1;
    }
    let ghost word = chars@.subrange(start as int, end as int);
    proof {
        lemma_leading_white(chars@, start as int);
        let rest = chars@.skip(start as int);
        assert forall|k: int| rest.len() - (chars@.len() - end) <= k < rest.len() implies is_white_space(
            #[trigger] rest[k],
        ) by {
            assert(rest[k] == chars@[k + start]);
        }
        if end > start {
            assert(rest[end - start - 1] == chars@[end - 1]);
        }
        lemma_trailing_white(rest, chars@.len() - end);
        assert(trimmed(chars@) =~= word);
    }
    let mut at: usize = start;
    if at < end && chars[at] == '+' {
        at = at + 1;
    }
    let ghost digits = chars@.subrange(at as int, end as int);
    proof {
        if at > start {
            assert(word[0] == '+');
            assert(word.skip(1) =~= digits);
        } else {
            if word.len() > 0 {
                assert(word[0] == chars@[start as int]);
            }
            assert(word =~= digits);
        }
    }
    if at >= end {
        return None;
    }
    let first = at;
    let mut value: u64 = 0;
    while at < end
        invariant
            first <= at <= end <= chars@.len(),
            first < end,
            digits == chars@.subrange(first as int, end as int),
            parsed(trimmed(line@)) == unsigned(digits),
            all_digits(digits.take(at - first)),
            value == decimal(digits.take(at - first)),
            value <= u32::MAX,
        decreases end - at,
    {
        let u = chars[at] as u32;
        let ghost seen = digits.take(at - first);
        let ghost more = digits.take(at - first + 1);
        proof {
            assert(digits[at - first] == chars@[at as int]);
            assert(more.drop_last() =~= seen);
            assert(more.last() == chars@[at as int]);
        }
        if u < 0x30 || u > 0x39 {
            assert(!is_digit(digits[at - first]));
            return None;
        }
        assert(all_digits(more)) by {
            assert forall|i: int| 0 <= i < more.len() implies is_digit(#[trigger] more[i]) by {
                if i < seen.len() {
                    assert(more[i] == seen[i]);
                }
            }
        }
        let next: u64 = value * 10 + (u - 0x30) as u64;
        if next > u32::MAX as u64 {
            proof {
                if all_digits(digits) {
                    lemma_decimal_grows(digits, at - first + 1);
                }
            }
            return None;
        }
        value = next;
        at = at + 1;
    }
    assert(digits.take(at - first) =~= digits);
    Some(value as u32)
}

/// What the game says to a guess of `guess` when the secret is `secret`.
pub fn judge(guess: u32, secret: u32) -> (turn: Turn)
    ensures
        turn == turn_of(Some(guess), secret),
{
    if guess < secret {
        Turn::TooSmall
    } else if guess > secret {
        Turn::TooBig
    } else {
        Turn::Correct
    }
}

/// One game: a secret between 1 and 100.
pub struct Game {
    secret: u32,
}

impl View for Game {
    type V = u32;

    closed spec fn view(&self) -> u32 {
        self.secret
    }
}

impl Game {
    /// A game with a secret that chance picks.
    pub fn start() -> (game: Game)
        ensures
            1 <= game@ <= 100,
    {
        let mut generator = rand::thread_rng();
        Game { secret: random_between(&mut generator, 1, 101) }
    }

    /// A game with the given secret, if that lies between 1 and 100.
    pub fn with_secret(secret: u32) -> (game: Option<Game>)
        ensures
            game is Some <==> 1 <= secret <= 100,
            game is Some ==> game->0@ == secret,
    {
        if 1 <= secret && secret <= 100 {
            Some(Game { secret })
        } else {
            None
        }
    }

    /// The secret.
    pub fn secret(&self) -> (secret: u32)
        ensures
            secret == self@,
    {
        self.secret
    }

    /// Answers one line of the player: the verdict on the number that the
    /// line spells, or that it spells none.
    pub fn guess(&self, line: &str) -> (turn: Turn)
        ensures
            turn == turn_of(parsed(trimmed(line@)), self@),
    {
        match parse_guess(line) {
            Some(guess) => judge(guess, self.secret),
            None => Turn::Invalid,
        }
    }
}

} // verus!
