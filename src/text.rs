//! Conversions between `str`, `String`, `char` and character vectors.
use vstd::prelude::*;
use vstd::std_specs::iter::IteratorSpec;

verus! {

/// The characters of `s`, in order.
pub fn chars_of(s: &str) -> (r: Vec<char>)
    ensures
        r@ == s@,
{
    broadcast use vstd::string::axiom_spec_iter, vstd::string::next_postcondition;

    let mut it = s.chars();
    let mut v: Vec<char> = Vec::new();
    loop
        invariant
            v@ + it.remaining() == s@,
            it.decrease() is Some,
        ensures
            v@ == s@,
        decreases it.decrease()->0,
    {
        match it.next() {
            Some(c) => {
                v.push(c);
            },
            None => {
                assert(v@ + it.remaining() == v@);
                break ;
            },
        }
    }
    v
}

/// Relies on `String: FromIterator<&char>` (`collect`): the string made of the
/// characters of `v`, in order.
#[verifier::external_body]
pub fn string_of(v: &Vec<char>) -> (r: String)
    ensures
        r@ == v@,
{
    v.iter().collect()
}

/// Whether `n` is a Unicode scalar value, i.e. a code point that a `char` can hold.
pub open spec fn is_scalar_value(n: int) -> bool {
    (0 <= n <= 0xD7FF) || (0xE000 <= n <= 0x10FFFF)
}

/// Relies on `char::from_u32`: `Some` exactly for Unicode scalar values, holding
/// the character with that code.
#[verifier::external_body]
pub fn char_from_code(n: u32) -> (r: Option<char>)
    ensures
        r is Some <==> is_scalar_value(n as int),
        r matches Some(c) ==> c as int == n as int,
{
    char::from_u32(n)
}

} // verus!
