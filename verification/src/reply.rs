//! The one-line replies of the daemon.

use vstd::prelude::*;

verus! {

/// A reply that says only that a request was carried out.
pub fn resp_ok() -> (r: String)
    ensures
        r@ == "ok"@,
{
    "ok".to_owned()
}

/// A reply that says why a request was not carried out.
pub fn resp_error(message: &str) -> (r: String)
    ensures
        r@ == "error:"@ + message@,
{
    let mut out = "error:".to_owned();
    out.push_str(message);
    out
}

} // verus!
