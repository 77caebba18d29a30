//! The links of the board: the paths the operator is sent to, and the
//! shareable feedback link whose protocol follows from the request's host.

use crate::text::{contains, occurs_in};
use vstd::prelude::*;
use vstd::string::StringExecFns;

verus! {

/// The path of the listing, to which the root and a failed creation lead.
pub open spec fn listing_path() -> Seq<char> {
    "/admin"@
}

/// The path of the detail view of the prompt `id`.
pub open spec fn detail_path(id: Seq<char>) -> Seq<char> {
    "/admin/prompt/"@ + id
}

/// A host names this machine when `localhost` or `127.0.0.1` occurs
/// anywhere in it.
pub open spec fn is_local_host(host: Seq<char>) -> bool {
    occurs_in(host, "localhost"@) || occurs_in(host, "127.0.0.1"@)
}

/// The protocol under which `host` is reached: plain `http` for a local
/// host, `https` for any other.
pub open spec fn protocol_for(host: Seq<char>) -> Seq<char> {
    if is_local_host(host) {
        "http"@
    } else {
        "https"@
    }
}

/// The link under which feedback on the prompt `id` is submitted, as seen
/// from outside through `host`.
pub open spec fn feedback_link(host: Seq<char>, id: Seq<char>) -> Seq<char> {
    protocol_for(host) + "://"@ + host + "/feedback/"@ + id
}

/// The path of the listing.
pub fn admin_path() -> (path: String)
    ensures
        path@ == listing_path(),
{
    String::from_str("/admin")
}

/// The path of the detail view of the prompt `id`.
pub fn prompt_path(id: &str) -> (path: String)
    ensures
        path@ == detail_path(id@),
{
    String::from_str("/admin/prompt/").concat(id)
}

/// The protocol under which `host` is reached.
pub fn protocol(host: &str) -> (scheme: &'static str)
    ensures
        scheme@ == protocol_for(host@),
{
    if contains(host, "localhost") || contains(host, "127.0.0.1") {
        "http"
    } else {
        "https"
    }
}

/// The shareable feedback link for the prompt `id`, for a request that
/// came in through `host`.
pub fn feedback_url(host: &str, id: &str) -> (url: String)
    ensures
        url@ == feedback_link(host@, id@),
{
    let mut url = String::from_str(protocol(host));
    url.append("://");
    url.append(host);
    url.append("/feedback/");
    url.append(id);
    url
}

} // verus!
