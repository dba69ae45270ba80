//! The status-code probe response: a body that reports whether a status
//! code counts as a success, together with the code's decimal text.

use crate::auth::Reply;
use crate::json::push_char;
use vstd::prelude::*;

verus! {

/// The decimal digit for a value below ten.
pub open spec fn dec_digit(n: int) -> char {
    if n == 0 {
        '0'
    } else if n == 1 {
        '1'
    } else if n == 2 {
        '2'
    } else if n == 3 {
        '3'
    } else if n == 4 {
        '4'
    } else if n == 5 {
        '5'
    } else if n == 6 {
        '6'
    } else if n == 7 {
        '7'
    } else if n == 8 {
        '8'
    } else {
        '9'
    }
}

/// The decimal text of a non-negative number.
pub open spec fn dec_of(n: int) -> Seq<char>
    recommends
        n >= 0,
    decreases n,
{
    if n < 10 {
        seq![dec_digit(n)]
    } else {
        dec_of(n / 10).push(dec_digit(n % 10))
    }
}

/// Whether a status code counts as a success.
pub open spec fn is_success_code(c: int) -> bool {
    200 <= c < 300
}

/// The response body for a status code.
pub open spec fn status_body(c: int) -> Seq<char> {
    "{\"success\":"@ + (if is_success_code(c) {
        "true"@
    } else {
        "false"@
    }) + ",\"status_code\":\""@ + dec_of(c) + "\"}"@
}

/// The digit character for a value below ten.
fn dec_digit_char(n: u16) -> (c: char)
    requires
        n < 10,
    ensures
        c == dec_digit(n as int),
{
    if n == 0 {
        '0'
    } else if n == 1 {
        '1'
    } else if n == 2 {
        '2'
    } else if n == 3 {
        '3'
    } else if n == 4 {
        '4'
    } else if n == 5 {
        '5'
    } else if n == 6 {
        '6'
    } else if n == 7 {
        '7'
    } else if n == 8 {
        '8'
    } else {
        '9'
    }
}

/// Appends the decimal text of `n` to `out`.
fn append_dec(out: &mut String, n: u16)
    ensures
        final(out)@ == old(out)@ + dec_of(n as int),
    decreases n,
{
    if n < 10 {
        push_char(out, dec_digit_char(n));
    } else {
        append_dec(out, n / 10);
        push_char(out, dec_digit_char(n % 10));
        proof {
            assert(out@ =~= old(out)@ + dec_of(n as int));
        }
    }
}

/// Builds the status probe response. The reply itself always goes out with
/// the unauthorized status; only the body reports on the code that was
/// asked about.
pub fn generate_response(status_code: u16) -> (r: Reply)
    ensures
        r.status == 401,
        r.body@ == status_body(status_code as int),
{
    let mut out = String::from_str("{\"success\":");
    if 200 <= status_code && status_code < 300 {
        out.append("true");
    } else {
        out.append("false");
    }
    out.append(",\"status_code\":\"");
    append_dec(&mut out, status_code);
    out.append("\"}");
    Reply { status: 401, body: out }
}

} // verus!
