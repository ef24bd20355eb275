//! The REST path layout: every binary command has an equivalent endpoint;
//! stream detail routes live under a common prefix.

use vstd::prelude::*;

verus! {

/// The path of one stream's detail endpoint.
pub fn get_details_path(stream_id: &str) -> (r: String)
    ensures
        r@ == "/streams/"@ + stream_id@,
{
    let mut s = "/streams/".to_owned();
    s.append(stream_id);
    s
}

} // verus!
