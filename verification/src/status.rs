//! Status codes of the hypertext transfer protocol.
use vstd::prelude::*;

verus! {

/// The status of an answer that could not be given because of a fault on our side.
pub const INTERNAL_SERVER_ERROR: u16 = 500;

/// The code can be the status of an answer: it has three digits, and the first is not zero.
pub open spec fn is_status(code: u16) -> bool {
    100 <= code <= 999
}

/// The code says that all went well.
pub open spec fn is_success(code: u16) -> bool {
    200 <= code < 300
}

/// Whether the code says that all went well.
pub fn succeeded(code: u16) -> (r: bool)
    ensures
        r == is_success(code),
{
    200 <= code && code < 300
}

/// A digit as it is written.
pub open spec fn digit(n: int) -> char {
    (48 + n) as char
}

/// The three digits of a code.
pub open spec fn digits(code: u16) -> Seq<char> {
    seq![
        digit(code as int / 100),
        digit(code as int / 10 % 10),
        digit(code as int % 10),
    ]
}

/// A status as `reqwest::StatusCode` prints it.
pub uninterp spec fn status_text(code: u16) -> Seq<char>;

/// Calls `reqwest::StatusCode::from_u16`, which takes every code of three digits whose first is not
/// zero, and prints what comes back: the code, a blank, and the usual name of the status or a
/// remark that it has none. Which name that is stays unsaid.
#[verifier::external_body]
pub(crate) fn print_status(code: u16) -> (r: String)
    requires
        is_status(code),
    ensures
        r@ == status_text(code),
        digits(code).push(' ').is_prefix_of(r@),
{
    reqwest::StatusCode::from_u16(code).unwrap().to_string()
}

/// A status is a success from 200 up to 299, and the digits of a code are its digits.
pub proof fn law_codes(code: u16)
    ensures
        is_success(code) <==> 200 <= code && code <= 299,
        is_status(code) <==> 100 <= code && code <= 999,
        is_status(code) ==> {
            let d = digits(code);
            &&& d.len() == 3
            &&& d[0] as int - '0' as int == code as int / 100
            &&& d[1] as int - '0' as int == code as int / 10 % 10
            &&& d[2] as int - '0' as int == code as int % 10
        },
{
}

} // verus!
