//! Coins and their worth, and the successor of an optional number.

use vstd::prelude::*;

verus! {

/// A state whose name is on a quarter.
#[derive(Clone, Copy, Debug, PartialEq, Eq, Structural)]
pub enum UsState {
    Alabama,
    Alaska,
}

/// A coin.
#[derive(Clone, Copy, Debug, PartialEq, Eq, Structural)]
pub enum Coin {
    Penny,
    Nickel,
    Dime,
    /// A quarter, with the state on its back.
    Quarter(UsState),
}

/// What a coin is worth in cents.
pub open spec fn cents(coin: Coin) -> nat {
    match coin {
        Coin::Penny => 1,
        Coin::Nickel => 5,
        Coin::Dime => 10,
        Coin::Quarter(_) => 25,
    }
}

/// What a coin is worth in cents: 1, 5, 10 or 25.
pub fn value_in_cents(coin: Coin) -> (value: u32)
    ensures
        value == cents(coin),
{
    match coin {
        Coin::Penny => 1,
        Coin::Nickel => 5,
        Coin::Dime => 10,
        Coin::Quarter(_) => 25,
    }
}

/// The number after `x`, where there is an `x`. The largest `i32` has no
/// successor and is left out.
pub fn plus_one(x: Option<i32>) -> (r: Option<i32>)
    requires
        x != Some(i32::MAX),
    ensures
        r == match x {
            Some(i) => Some((i + 1) as i32),
            None => None,
        },
{
    match x {
        None => None,
        Some(i) => Some(i + 1),
    }
}

} // verus!
