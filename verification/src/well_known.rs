//! Decision logic of the discovery endpoints: what the server advertises and
//! which well-known responses exist for a given configuration. The HTTP
//! wiring lives with the caller; these functions decide, the callers serve.

use vstd::prelude::*;

verus! {

/// One support contact advertised by the server's domain: a role with at
/// least one way to reach it.
pub struct SupportContact {
    pub role: String,
    pub email_address: Option<String>,
    pub matrix_id: Option<String>,
}

/// The protocol versions this server supports, oldest first: only the latest
/// patch release of each major.minor line is reported.
pub fn supported_versions() -> (r: Vec<String>)
    ensures
        r@.len() == 14,
        r@[0]@ == "r0.0.1"@,
        r@[1]@ == "r0.1.0"@,
        r@[2]@ == "r0.2.0"@,
        r@[3]@ == "r0.3.0"@,
        r@[4]@ == "r0.4.0"@,
        r@[5]@ == "r0.5.0"@,
        r@[6]@ == "r0.6.0"@,
        r@[7]@ == "r0.6.1"@,
        r@[8]@ == "v1.1"@,
        r@[9]@ == "v1.2"@,
        r@[10]@ == "v1.3"@,
        r@[11]@ == "v1.4"@,
        r@[12]@ == "v1.5"@,
        r@[13]@ == "v1.11"@,
{
    let mut r: Vec<String> = Vec::new();
    r.push("r0.0.1".to_owned());
    r.push("r0.1.0".to_owned());
    r.push("r0.2.0".to_owned());
    r.push("r0.3.0".to_owned());
    r.push("r0.4.0".to_owned());
    r.push("r0.5.0".to_owned());
    r.push("r0.6.0".to_owned());
    r.push("r0.6.1".to_owned());
    r.push("v1.1".to_owned());
    r.push("v1.2".to_owned());
    r.push("v1.3".to_owned());
    r.push("v1.4".to_owned());
    r.push("v1.5".to_owned());
    r.push("v1.11".to_owned());
    r
}

/// The namespaced unstable features the server announces, all enabled.
pub fn unstable_features() -> (r: Vec<(String, bool)>)
    ensures
        r@.len() == 13,
        forall|i: int| 0 <= i < r@.len() ==> (#[trigger] r@[i]).1 == true,
        r@[0].0@ == "org.matrix.e2e_cross_signing"@,
        r@[1].0@ == "org.matrix.msc2285.stable"@,
        r@[2].0@ == "uk.half-shot.msc2666.query_mutual_rooms"@,
        r@[3].0@ == "org.matrix.msc2836"@,
        r@[4].0@ == "org.matrix.msc2946"@,
        r@[5].0@ == "org.matrix.msc3026.busy_presence"@,
        r@[6].0@ == "org.matrix.msc3827"@,
        r@[7].0@ == "org.matrix.msc3952_intentional_mentions"@,
        r@[8].0@ == "org.matrix.msc3575"@,
        r@[9].0@ == "org.matrix.msc3916.stable"@,
        r@[10].0@ == "org.matrix.msc4180"@,
        r@[11].0@ == "uk.tcpip.msc4133"@,
        r@[12].0@ == "us.cloke.msc4175"@,
{
    let mut r: Vec<(String, bool)> = Vec::new();
    r.push(("org.matrix.e2e_cross_signing".to_owned(), true));
    r.push(("org.matrix.msc2285.stable".to_owned(), true));
    r.push(("uk.half-shot.msc2666.query_mutual_rooms".to_owned(), true));
    r.push(("org.matrix.msc2836".to_owned(), true));
    r.push(("org.matrix.msc2946".to_owned(), true));
    r.push(("org.matrix.msc3026.busy_presence".to_owned(), true));
    r.push(("org.matrix.msc3827".to_owned(), true));
    r.push(("org.matrix.msc3952_intentional_mentions".to_owned(), true));
    r.push(("org.matrix.msc3575".to_owned(), true));
    r.push(("org.matrix.msc3916.stable".to_owned(), true));
    r.push(("org.matrix.msc4180".to_owned(), true));
    r.push(("uk.tcpip.msc4133".to_owned(), true));
    r.push(("us.cloke.msc4175".to_owned(), true));
    r
}

/// The well-known client discovery decision: with a configured client URL the
/// response advertises it both as the homeserver base URL and as the sliding
/// sync proxy; without one there is no response (the caller serves not-found).
pub fn well_known_client(client_url: Option<String>) -> (r: Option<(String, String)>)
    ensures
        match client_url {
            Some(url) => r matches Some(p) && p.0@ == url@ && p.1@ == url@,
            None => r is None,
        },
{
    match client_url {
        Some(url) => {
            let base = clone_string(&url);
            Some((base, url))
        },
        None => None,
    }
}

/// The well-known support decision: a response exists only if a support page
/// or a role is configured, and a role must come with an email address or a
/// contact id; the one contact advertised carries the role with whatever ways
/// to reach it are configured.
pub fn well_known_support(
    support_page: Option<String>,
    role: Option<String>,
    email_address: Option<String>,
    matrix_id: Option<String>,
) -> (r: Option<(Vec<SupportContact>, Option<String>)>)
    ensures
        support_page is None && role is None ==> r is None,
        role is Some && email_address is None && matrix_id is None ==> r is None,
        !(support_page is None && role is None) && !(role is Some && email_address is None
            && matrix_id is None) ==> ({
            &&& r matches Some(resp)
            &&& resp.1 == support_page
            &&& role matches Some(ro) ==> resp.0@.len() == 1 && resp.0@[0].role == ro
                && resp.0@[0].email_address == email_address && resp.0@[0].matrix_id == matrix_id
            &&& role is None ==> resp.0@.len() == 0
        }),
{
    if support_page.is_none() && role.is_none() {
        return None;
    }
    if role.is_some() && email_address.is_none() && matrix_id.is_none() {
        return None;
    }
    let mut contacts: Vec<SupportContact> = Vec::new();
    match role {
        Some(ro) => {
            contacts.push(SupportContact { role: ro, email_address, matrix_id });
        },
        None => {},
    }
    Some((contacts, support_page))
}

/// The health-check URL decision: the configured client URL wins, the server
/// URL is the fallback, and with neither there is nothing to serve.
pub fn syncv3_server_url(client_url: Option<String>, server_url: Option<String>) -> (r: Option<
    String,
>)
    ensures
        match client_url {
            Some(url) => r == Some(url),
            None => r == server_url,
        },
{
    match client_url {
        Some(url) => Some(url),
        None => server_url,
    }
}

/// Copy a string.
fn clone_string(s: &String) -> (r: String)
    ensures
        r@ == s@,
{
    s.as_str().to_owned()
}

} // verus!
