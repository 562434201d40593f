//! HTTP status codes and the addresses of local services.

use crate::text;
use crate::text::to_decimal;
use vstd::prelude::*;

verus! {

/// What `StatusCode::to_string` writes for a status.
pub uninterp spec fn status_text(code: u16) -> Seq<char>;

/// `reqwest::StatusCode::from_u16` and `to_string`: the code in decimal, a space, and the reason that is
/// customary for the code. The reasons are left to the name `status_text`; they depend on the code alone.
/// Codes below 100 and from 1000 on are left out: they are no status.
#[verifier::external_body]
pub(crate) fn write_status(code: u16) -> (r: String)
    requires
        100 <= code < 1000,
    ensures
        r@ == status_text(code),
        (text::decimal(code as nat) + " "@).is_prefix_of(r@),
{
    match reqwest::StatusCode::from_u16(code) {
        Ok(status) => status.to_string(),
        Err(e) => e.to_string(),
    }
}

/// The status says that the request was carried out.
pub open spec fn is_success(code: u16) -> bool {
    200 <= code < 300
}

/// Whether a status says that the request was carried out.
pub fn status_is_success(code: u16) -> (r: bool)
    ensures
        r == is_success(code),
{
    code >= 200 && code < 300
}

/// The address of a path of a service on this machine.
pub open spec fn local_address(port: u16, path: Seq<char>) -> Seq<char> {
    "http://127.0.0.1:"@ + text::decimal(port as nat) + path
}

/// The address of a path of a service on this machine.
pub fn local_url(port: u16, path: &str) -> (r: String)
    ensures
        r@ == local_address(port, path@),
{
    let mut url: String = "http://127.0.0.1:".to_string();
    url.append(to_decimal(port as u64).as_str());
    url.append(path);
    url
}

/// A status is a success exactly where its first digit of three is a two.
pub proof fn law_successes_begin_with_a_two(code: u16)
    ensures
        is_success(code) <==> code / 100 == 2,
{
}

/// A path of a local service is found under the loopback address, at its port: the port and the path alone
/// make the difference.
pub proof fn law_local_services_are_found_at_their_port(port: u16, path: Seq<char>)
    ensures
        local_address(port, path) == "http://127.0.0.1:"@ + text::decimal(port as nat) + path,
        local_address(port, path).len() == "http://127.0.0.1:"@.len() + text::decimal(
            port as nat,
        ).len() + path.len(),
        local_address(port, path).skip(local_address(port, path).len() - path.len()) == path,
{
    let all = local_address(port, path);
    assert(all.skip(all.len() - path.len()) =~= path);
}

} // verus!
