//! The functions of the ownership listings of the book: moving a `String`
//! out of a function, into one and back, and borrowing it.

use vstd::prelude::*;

verus! {

/// Makes a `String` and moves it out to the caller.
pub fn gives_ownership() -> (r: String)
    ensures
        r@ == "yours"@,
{
    let some_string = "yours".to_owned();
    some_string
}

/// Takes a `String` and moves it back out.
pub fn takes_and_gives_back(a_string: String) -> (r: String)
    ensures
        r == a_string,
{
    a_string
}

/// The length in bytes of a borrowed `String`; the caller keeps it.
pub fn calculate_length(s: &String) -> (len: usize)
    ensures
        len == vstd::utf8::encode_utf8(s@).len() as usize,
{
    s.as_str().len()
}

/// The listing returns a reference to a `String` that the function itself
/// owns, which the borrow checker refuses: the `String` would be dropped at
/// the end of the function. The way out is to move the `String` out.
pub fn dangle() -> (r: String)
    ensures
        r@ == "hello"@,
{
    let s = "hello".to_owned();
    s
}

} // verus!
