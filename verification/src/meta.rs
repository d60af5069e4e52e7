//! What the `/meta` endpoint reports about the client, and the lines the
//! client shows from it.
use vstd::prelude::*;
use crate::text::{decimal, decimal_string};

verus! {

/// The `/meta` report: the client's address and network, and where the
/// service places it.
#[derive(Debug)]
pub struct CfMeta {
    pub hostname: String,
    pub client_ip: String,
    pub http_protocol: String,
    pub asn: u32,
    pub as_organization: String,
    pub colo: String,
    pub country: String,
    pub city: String,
    pub region: String,
    pub postal_code: String,
    pub latitude: String,
    pub longitude: String,
}

/// `<city> (<colo>)`: the data centre that answered.
pub fn describe_server(city: &str, colo: &str) -> (line: String)
    ensures
        line@ == city@ + " ("@ + colo@ + ")"@,
{
    let mut line = String::from_str(city);
    line.append(" (");
    line.append(colo);
    line.append(")");
    line
}

/// `<client_ip> (<city>, <country>)`: where the client was seen from.
pub fn describe_client(meta: &CfMeta) -> (line: String)
    ensures
        line@ == meta.client_ip@ + " ("@ + meta.city@ + ", "@ + meta.country@ + ")"@,
{
    let mut line = meta.client_ip.clone();
    line.append(" (");
    line.append(meta.city.as_str());
    line.append(", ");
    line.append(meta.country.as_str());
    line.append(")");
    line
}

/// `<as_organization> (AS<asn>)`: the client's network.
pub fn describe_isp(meta: &CfMeta) -> (line: String)
    ensures
        line@ == meta.as_organization@ + " (AS"@ + decimal(meta.asn as nat) + ")"@,
{
    let mut line = meta.as_organization.clone();
    line.append(" (AS");
    line.append(decimal_string(meta.asn as u64).as_str());
    line.append(")");
    line
}

} // verus!
