//! Decisions of the configuration API: which requests get through, and what a
//! refused request is answered.
use vstd::prelude::*;
use crate::text::same_text;

verus! {

/// What to do with a request before the token is checked.
#[derive(PartialEq, Eq, Structural, Clone, Copy, Debug)]
pub enum Gate {
    /// A CORS preflight: answered at once, without a token.
    Preflight,
    /// No token: refused.
    Unauthorized,
    /// A token to compare with the shared one.
    Verify,
}

/// The first decision on a request: `OPTIONS` is a preflight, a request
/// without a token is refused, any other has its token checked.
pub fn gate(method: &str, token: &str) -> (g: Gate)
    ensures
        method@ == "OPTIONS"@ ==> g == Gate::Preflight,
        method@ != "OPTIONS"@ && token@.len() == 0 ==> g == Gate::Unauthorized,
        method@ != "OPTIONS"@ && token@.len() > 0 ==> g == Gate::Verify,
{
    if same_text(method, "OPTIONS") {
        Gate::Preflight
    } else if token.is_empty() {
        Gate::Unauthorized
    } else {
        Gate::Verify
    }
}

/// Whether the request's token is the shared one.
pub fn token_accepted(token: &str, expected: &str) -> (r: bool)
    ensures
        r == (token@ == expected@),
{
    same_text(token, expected)
}

/// What an authorized request asks for.
#[derive(PartialEq, Eq, Structural, Clone, Copy, Debug)]
pub enum Action {
    /// `GET`: the configuration and the pairs to choose from.
    Show,
    /// `PUT`: a new configuration.
    Save,
    /// Any other method.
    NotAllowed,
}

/// The action of an authorized request's method.
pub fn action(method: &str) -> (a: Action)
    ensures
        method@ == "GET"@ ==> a == Action::Show,
        method@ == "PUT"@ ==> a == Action::Save,
        method@ != "GET"@ && method@ != "PUT"@ ==> a == Action::NotAllowed,
{
    proof {
        reveal_strlit("GET");
        reveal_strlit("PUT");
        assert("GET"@[0] != "PUT"@[0]);
    }
    if same_text(method, "GET") {
        Action::Show
    } else if same_text(method, "PUT") {
        Action::Save
    } else {
        Action::NotAllowed
    }
}

/// Why a request is refused.
pub enum Refusal {
    /// The token is missing or wrong.
    InvalidToken,
    /// The body of a `PUT` is not JSON.
    InvalidJson,
    /// The requested configuration is not acceptable; the message says why.
    InvalidConfig(String),
    /// The method is neither `GET`, `PUT` nor `OPTIONS`.
    MethodNotAllowed,
}

/// HTTP status of a refusal.
pub open spec fn refusal_status(r: Refusal) -> u16 {
    match r {
        Refusal::InvalidToken => 401,
        Refusal::InvalidJson => 400,
        Refusal::InvalidConfig(_) => 400,
        Refusal::MethodNotAllowed => 405,
    }
}

/// Message of a refusal.
pub open spec fn refusal_message(r: Refusal) -> Seq<char> {
    match r {
        Refusal::InvalidToken => "invalid token"@,
        Refusal::InvalidJson => "invalid JSON body"@,
        Refusal::InvalidConfig(m) => m@,
        Refusal::MethodNotAllowed => "method not allowed"@,
    }
}

/// The HTTP status a refusal is answered with.
pub fn status_of(r: &Refusal) -> (s: u16)
    ensures
        s == refusal_status(*r),
{
    match r {
        Refusal::InvalidToken => 401,
        Refusal::InvalidJson => 400,
        Refusal::InvalidConfig(_) => 400,
        Refusal::MethodNotAllowed => 405,
    }
}

/// The `error` message a refusal is answered with.
pub fn message_of(r: &Refusal) -> (m: String)
    ensures
        m@ == refusal_message(*r),
{
    match r {
        Refusal::InvalidToken => String::from_str("invalid token"),
        Refusal::InvalidJson => String::from_str("invalid JSON body"),
        Refusal::InvalidConfig(m) => m.clone(),
        Refusal::MethodNotAllowed => String::from_str("method not allowed"),
    }
}


/// The origin allowed to call the API: the configured one, or any (`*`).
pub fn allowed_origin(setting: Option<String>) -> (o: String)
    ensures
        o@ == match setting {
            Some(s) => s@,
            None => "*"@,
        },
{
    match setting {
        Some(s) => s,
        None => String::from_str("*"),
    }
}

/// The headers of every answer: JSON content, and the CORS headers that let
/// the settings page at `origin` call the API with its token.
pub open spec fn answer_headers(origin: Seq<char>) -> Seq<(Seq<char>, Seq<char>)> {
    seq![
        ("Content-Type"@, "application/json; charset=utf-8"@),
        ("Access-Control-Allow-Origin"@, origin),
        ("Access-Control-Allow-Methods"@, "GET, PUT, OPTIONS"@),
        ("Access-Control-Allow-Headers"@, "Content-Type, X-Auth-Token"@),
    ]
}

/// The headers of every answer, as name and value.
pub fn response_headers(origin: &str) -> (h: Vec<(String, String)>)
    ensures
        h@.map_values(|p: (String, String)| (p.0@, p.1@)) == answer_headers(origin@),
{
    let mut h: Vec<(String, String)> = Vec::new();
    h.push((String::from_str("Content-Type"), String::from_str("application/json; charset=utf-8")));
    h.push((String::from_str("Access-Control-Allow-Origin"), String::from_str(origin)));
    h.push((String::from_str("Access-Control-Allow-Methods"), String::from_str("GET, PUT, OPTIONS")));
    h.push((
        String::from_str("Access-Control-Allow-Headers"),
        String::from_str("Content-Type, X-Auth-Token"),
    ));
    assert(h@.map_values(|p: (String, String)| (p.0@, p.1@)) =~= answer_headers(origin@));
    h
}

} // verus!
