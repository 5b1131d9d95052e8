use vstd::prelude::*;

verus! {

/// The port the listener falls back to when none, or no valid one, is given.
pub const DEFAULT_PORT: i32 = 4554;

/// What the standard library's `str::parse::<i32>` makes of `text`: the
/// number the text spells, or `None` where the parser rejects the text.
pub uninterp spec fn parsed_i32(text: Seq<char>) -> Option<i32>;

/// Calls the standard library's `str::parse::<i32>` on `text`.
///
/// Trusted, not proved: the result is what that parser makes of the text,
/// `None` standing for each of its errors. The parser reads nothing but the
/// text, so the same text always gives the same result.
#[verifier::external_body]
fn parse_i32(text: &str) -> (r: Option<i32>)
    ensures
        r == parsed_i32(text@),
{
    match text.parse::<i32>() {
        Ok(n) => Some(n),
        Err(_) => None,
    }
}

/// A number is a port if it lies between 1 and 65535.
pub open spec fn port_in_range(port: i32) -> Option<i32> {
    if 0 < port <= 65535 {
        Some(port)
    } else {
        None
    }
}

/// The listening port that the number `parsed` stands for, if it is one.
pub open spec fn port_from(parsed: Option<i32>) -> Option<i32> {
    match parsed {
        Some(port) => port_in_range(port),
        None => None,
    }
}

/// Accepts `port` if it lies between 1 and 65535.
pub fn check_port(port: i32) -> (r: Option<i32>)
    ensures
        r == port_in_range(port),
{
    if port <= 0 || port > 65535 {
        return None;
    }
    Some(port)
}

/// Accepts what the parser made of the argument, if it is a port.
pub fn port_of_parsed(parsed: Option<i32>) -> (r: Option<i32>)
    ensures
        r == port_from(parsed),
{
    match parsed {
        Some(port) => check_port(port),
        None => None,
    }
}

/// The listening port given by the first command line argument
/// `listening_port`: the number it spells, if it spells one between 1 and
/// 65535. A missing argument gives `None`.
pub fn get_port(listening_port: Option<&str>) -> (r: Option<i32>)
    ensures
        r == match listening_port {
            Some(text) => port_from(parsed_i32(text@)),
            None => None,
        },
{
    let text = listening_port?;
    port_of_parsed(parse_i32(text))
}

} // verus!
