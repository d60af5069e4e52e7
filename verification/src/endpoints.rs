//! The endpoints of the speed test service and the requests sent to them.
use vstd::prelude::*;
use crate::text::{decimal, decimal_string, digits_value, law_decimal_reads_back};

verus! {

/// Lists the service's data centres, as JSON.
pub const LOCATIONS_URL: &'static str = "https://speed.cloudflare.com/locations";

/// Reports the connection as `key=value` lines.
pub const TRACE_URL: &'static str = "https://speed.cloudflare.com/cdn-cgi/trace";

/// Reports what the service knows of the client, as JSON.
pub const META_URL: &'static str = "https://speed.cloudflare.com/meta";

/// Accepts uploaded bytes.
pub const UPLOAD_URL: &'static str = "https://speed.cloudflare.com/__up";

/// The address that serves a download of `bytes` bytes.
pub open spec fn download_url_spec(bytes: nat) -> Seq<char> {
    "https://speed.cloudflare.com/__down?bytes="@ + decimal(bytes)
}

/// Law: the download address is the fixed prefix followed by nothing but
/// decimal digits, which read back in base 10 as the requested size.
pub proof fn law_download_url_carries_size(bytes: nat)
    ensures
        download_url_spec(bytes).subrange(0, 42) == "https://speed.cloudflare.com/__down?bytes="@,
        forall|i: int|
            42 <= i < download_url_spec(bytes).len() ==> 48 <= #[trigger] (download_url_spec(
                bytes,
            )[i] as int) <= 57,
        digits_value(download_url_spec(bytes).subrange(42, download_url_spec(bytes).len() as int))
            == bytes,
{
    reveal_strlit("https://speed.cloudflare.com/__down?bytes=");
    let prefix = "https://speed.cloudflare.com/__down?bytes="@;
    assert(prefix.len() == 42);
    law_decimal_reads_back(bytes);
    let url = download_url_spec(bytes);
    assert(url.subrange(0, 42) =~= prefix);
    assert(url.subrange(42, url.len() as int) =~= decimal(bytes));
    assert forall|i: int| 42 <= i < url.len() implies 48 <= #[trigger] (url[i] as int) <= 57 by {
        assert(url[i] == decimal(bytes)[i - 42]);
    }
}

/// Builds the address that serves a download of `bytes` bytes.
pub fn download_url(bytes: usize) -> (url: String)
    ensures
        url@ == download_url_spec(bytes as nat),
{
    let mut url = String::from_str("https://speed.cloudflare.com/__down?bytes=");
    url.append(decimal_string(bytes as u64).as_str());
    url
}

/// The body of an upload of `bytes` bytes: that many `'0'` characters.
pub fn upload_payload(bytes: usize) -> (body: String)
    ensures
        body@ == Seq::new(bytes as nat, |i: int| '0'),
{
    let zero = "0";
    proof {
        reveal_strlit("0");
    }
    let mut body = String::new();
    let mut k: usize = 0;
    while k < bytes
        invariant
            k <= bytes,
            zero@ == seq!['0'],
            body@ == Seq::new(k as nat, |i: int| '0'),
        decreases bytes - k,
    {
        body.append(zero);
        k = k + 1;
        assert(body@ =~= Seq::new(k as nat, |i: int| '0'));
    }
    body
}

} // verus!
