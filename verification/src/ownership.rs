//! Strings handed out and handed back.

use vstd::prelude::*;
use vstd::string::*;

verus! {

/// A new string, `hello for s1`, that the caller owns.
pub fn gives_ownership() -> (s: String)
    ensures
        s@ == "hello for s1"@,
{
    String::from_str("hello for s1")
}

/// Takes a string and gives the same string back.
pub fn takes_and_gives_back(a_string: String) -> (s: String)
    ensures
        s == a_string,
{
    a_string
}

} // verus!
