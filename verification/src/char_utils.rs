//! What counts as part of a variable name.
use vstd::prelude::*;

verus! {

/// Whether `c` is alphabetic or numeric in Unicode's sense, as
/// `char::is_alphanumeric` decides it.
pub uninterp spec fn unicode_alphanumeric(c: char) -> bool;

/// ASCII letters and digits.
pub open spec fn ascii_alphanumeric(c: char) -> bool {
    ('a' <= c && c <= 'z') || ('A' <= c && c <= 'Z') || ('0' <= c && c <= '9')
}

/// `char::is_alphanumeric`: the answer is named by [`unicode_alphanumeric`];
/// among ASCII characters it holds of exactly the letters and digits, as the
/// documentation of `is_alphabetic` and `is_numeric` says.
#[verifier::external_body]
fn char_is_alphanumeric(c: char) -> (r: bool)
    ensures
        r == unicode_alphanumeric(c),
        (c as u32) < 128 ==> (r <==> ascii_alphanumeric(c)),
{
    c.is_alphanumeric()
}

/// A character that may stand in a variable name.
pub open spec fn is_variable_char(c: char) -> bool {
    unicode_alphanumeric(c) || c == '_'
}

pub trait MyCharUtils {
    spec fn spec_is_variable_name(&self) -> bool;

    fn is_variable_name(&self) -> (r: bool)
        ensures
            r == self.spec_is_variable_name(),
    ;
}

impl MyCharUtils for char {
    open spec fn spec_is_variable_name(&self) -> bool {
        is_variable_char(*self)
    }

    fn is_variable_name(&self) -> (r: bool) {
        char_is_alphanumeric(*self) || *self == '_'
    }
}

} // verus!
