//! Reading a command-line tool's path out of a configuration text: the
//! path is the first line of the config.
//!
//! The line-splitting follows the usual buffered-reader convention: a line
//! runs up to the first line-feed byte, the line feed is not part of the
//! line, and a carriage return immediately before it is stripped as well.
//! A final line without a trailing line feed is returned whole.

use vstd::prelude::*;
use vstd::utf8::decode_utf8;
use vstd::utf8::valid_utf8;

use crate::byteutil::copy_range;
use crate::text::utf8_to_str;

verus! {

/// Why no path could be read from the config text.
#[derive(Debug, Clone, PartialEq, Eq)]
pub enum ConfigError {
    /// The config is empty.
    Empty,
    /// The first line is not valid UTF-8.
    InvalidUtf8,
}

/// Index of the first line-feed byte at or after `i`, or the length of `s`
/// when there is none.
pub open spec fn first_nl(s: Seq<u8>, i: int) -> int
    decreases s.len() - i,
{
    if i < s.len() {
        if s[i] == 10 {
            i
        } else {
            first_nl(s, i + 1)
        }
    } else {
        i
    }
}


/// Where the first line ends: just before the first line feed, also
/// stripping a carriage return immediately before it; or the end of the
/// text when it has no line feed.
pub open spec fn first_line_end(s: Seq<u8>) -> int {
    let e = first_nl(s, 0);
    if e < s.len() && e > 0 && s[e - 1] == 13 {
        e - 1
    } else {
        e
    }
}

/// The bytes of the first line of `s`.
pub open spec fn first_line(s: Seq<u8>) -> Seq<u8> {
    s.subrange(0, first_line_end(s))
}

/// Reads the tool path from the config text: the first line, decoded as
/// UTF-8.  Fails with [`ConfigError::Empty`] exactly when the config holds
/// no bytes at all, and with [`ConfigError::InvalidUtf8`] exactly when the
/// first line is not valid UTF-8.
#[verifier::loop_isolation(false)]
pub fn get_cli_path(config: &[u8]) -> (r: Result<String, ConfigError>)
    ensures
        config@.len() == 0 ==> r == Result::<String, ConfigError>::Err(ConfigError::Empty),
        config@.len() > 0 && !valid_utf8(first_line(config@)) ==> r == Result::<
            String,
            ConfigError,
        >::Err(ConfigError::InvalidUtf8),
        config@.len() > 0 && valid_utf8(first_line(config@)) ==> (r matches Result::Ok(p) && p@
            == decode_utf8(first_line(config@))),
{
    if config.len() == 0 {
        return Result::Err(ConfigError::Empty);
    }
    let mut e: usize = 0;
    while e < config.len() && config[e] != 10
        invariant
            e <= config@.len(),
            first_nl(config@, 0) == first_nl(config@, e as int),
        decreases config@.len() - e,
    {
        e += 1;
    }
    let end = if e < config.len() && e > 0 && config[e - 1] == 13 {
        e - 1
    } else {
        e
    };
    let line = copy_range(config, 0, end);
    proof {
        assert(line@ == first_line(config@));
    }
    match utf8_to_str(line.as_slice()) {
        Option::Some(s) => Result::Ok(s.to_owned()),
        Option::None => Result::Err(ConfigError::InvalidUtf8),
    }
}

} // verus!
