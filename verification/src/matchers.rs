//! The predicate behind a custom status-code matcher: a status is accepted
//! exactly when it is the "moved permanently" redirect code.

use vstd::prelude::*;

verus! {

/// The HTTP status code `301 Moved Permanently`, the one redirect code the
/// matcher accepts.
pub const MOVED_PERMANENTLY: u16 = 301;

/// True exactly when `status` is the `301 Moved Permanently` code.
pub fn is_redirect(status: u16) -> (r: bool)
    ensures
        r == (status == MOVED_PERMANENTLY),
{
    status == MOVED_PERMANENTLY
}

} // verus!
