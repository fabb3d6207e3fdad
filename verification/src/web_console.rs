//! The addresses by which the web console is entered with the
//! credentials of a profile.

use vstd::prelude::*;
use vstd::string::StringExecFns;
use crate::credentials::optional_text;

verus! {

/// Where the web console lets users in.
pub const SIGN_IN_URL: &'static str = "https://signin.aws.amazon.com/federation";

/// What asks for a sign-in token, up to the session that it is asked for.
pub const TOKEN_QUERY: &'static str = "?Action=getSigninToken&DurationSeconds=3600&SessionType=json&";

/// The views of pairs of strings.
pub open spec fn pair_views(pairs: Seq<(String, String)>) -> Seq<(Seq<char>, Seq<char>)> {
    Seq::new(pairs.len(), |i: int| (pairs[i].0@, pairs[i].1@))
}

/// The pairs as the body of a web form, `None` where they cannot be
/// written as one.
pub uninterp spec fn form_encoded(pairs: Seq<(Seq<char>, Seq<char>)>) -> Option<Seq<char>>;

/// Calls `serde_urlencoded::to_string` on the pairs; the result is
/// `form_encoded` of them.
#[verifier::external_body]
fn encode_pairs(pairs: &Vec<(String, String)>) -> (r: Option<String>)
    ensures
        optional_text(r) == form_encoded(pair_views(pairs@)),
{
    serde_urlencoded::to_string(pairs).ok()
}

/// The address of the page of `service` in the console of `region`.
pub open spec fn destination(service: Seq<char>, region: Seq<char>) -> Seq<char> {
    "https://"@ + region + ".console.aws.amazon.com/"@ + service + "/home?region="@ + region
}

/// The address of the page of `service` in the console of `region`.
pub fn destination_url(service: &str, region: &str) -> (r: String)
    ensures
        r@ == destination(service@, region@),
{
    let mut r = String::from_str("https://");
    r.append(region);
    r.append(".console.aws.amazon.com/");
    r.append(service);
    r.append("/home?region=");
    r.append(region);
    r
}

/// The address that hands out a sign-in token for a session, which is
/// given as a JSON document.
pub fn build_sign_in_token_url(session_json: &str) -> (r: Option<String>)
    ensures
        match form_encoded(seq![("Session"@, session_json@)]) {
            Some(query) => r matches Some(url) && url@ == SIGN_IN_URL@ + TOKEN_QUERY@ + query,
            None => r is None,
        },
{
    let mut pairs: Vec<(String, String)> = Vec::new();
    pairs.push((String::from_str("Session"), session_json.to_owned()));
    assert(pair_views(pairs@) == seq![("Session"@, session_json@)]);
    match encode_pairs(&pairs) {
        Some(query) => {
            let mut url = String::from_str(SIGN_IN_URL);
            url.append(TOKEN_QUERY);
            url.append(query.as_str());
            Some(url)
        },
        None => None,
    }
}

/// The address that lets the holder of `sign_in_token` into the page of
/// `service` in the console of `region`.
pub fn sign_in_url(service: &str, region: &str, sign_in_token: &str) -> (r: Option<String>)
    ensures
        match form_encoded(
            seq![
                ("Action"@, "login"@),
                ("Issuer"@, ""@),
                ("Destination"@, destination(service@, region@)),
                ("SigninToken"@, sign_in_token@),
            ],
        ) {
            Some(query) => r matches Some(url) && url@ == SIGN_IN_URL@ + "?"@ + query,
            None => r is None,
        },
{
    let mut pairs: Vec<(String, String)> = Vec::new();
    pairs.push((String::from_str("Action"), String::from_str("login")));
    pairs.push((String::from_str("Issuer"), String::from_str("")));
    pairs.push((String::from_str("Destination"), destination_url(service, region)));
    pairs.push((String::from_str("SigninToken"), sign_in_token.to_owned()));
    assert(pair_views(pairs@) == seq![
        ("Action"@, "login"@),
        ("Issuer"@, ""@),
        ("Destination"@, destination(service@, region@)),
        ("SigninToken"@, sign_in_token@),
    ]);
    match encode_pairs(&pairs) {
        Some(query) => {
            let mut url = String::from_str(SIGN_IN_URL);
            url.append("?");
            url.append(query.as_str());
            Some(url)
        },
        None => None,
    }
}

} // verus!
