//! Small text primitives from `std` that the library builds its strings with.
use vstd::prelude::*;
use vstd::utf8::is_scalar;

verus! {

/// Wraps `String::push`: the string gains `c` at its end.
#[verifier::external_body]
pub fn push_char(s: &mut String, c: char)
    ensures
        final(s)@ == old(s)@.push(c),
{
    s.push(c);
}

/// Wraps `char::from_u32`: `Some` exactly for Unicode scalar values (at most
/// 0x10FFFF and outside the surrogate range), holding the char of that value.
#[verifier::external_body]
pub fn char_from_u32(v: u32) -> (r: Option<char>)
    ensures
        r is Some <==> is_scalar(v),
        r matches Some(c) ==> c as u32 == v,
{
    char::from_u32(v)
}

/// Appends `t` to `s`.
pub fn push_str(s: &mut String, t: &str)
    ensures
        final(s)@ == old(s)@ + t@,
{
    s.append(t);
}

/// The char of an ASCII byte.
pub fn ascii_char(b: u8) -> (c: char)
    requires
        b < 128,
    ensures
        c as u32 == b as u32,
{
    let r = char_from_u32(b as u32);
    match r {
        Some(c) => c,
        None => {
            proof {
                assert(false);
            }
            ' '
        },
    }
}

} // verus!
