//! Getting online: how a session begins, and which rows are asked for.
use crate::text::{chars_of, decimal, push_decimal, push_str, text_of};
use vstd::prelude::*;

verus! {

broadcast use {vstd::seq::group_seq_axioms, vstd::string::group_string_axioms};

pub const HOST: &'static str = "https://maincloud.spacetimedb.com";

pub const DB_NAME: &'static str = "stdb-lightshow-spike";

/// How far the session is.
#[derive(Debug)]
pub enum ConnState {
    /// There is no token: the user has to sign in.
    NeedsLogin,
    /// A code is being exchanged for a token.
    Authenticating,
    /// There is a token, and the connection is being made.
    Connecting,
    Connected,
    Failed(String),
}

/// What to do next to get online.
#[derive(Debug)]
pub enum Boot {
    /// Exchange the code for a token.
    Exchange(String),
    /// Connect with the token.
    Connect(String),
    /// Wait for the user.
    Wait,
}

/// How a session begins: a sign-in that came back is completed, else a stored token
/// is used, else the user has to sign in.
pub fn bootstrap(code: Option<String>, token: Option<String>) -> (r: (ConnState, Boot))
    ensures
        code matches Some(c) ==> r.0 is Authenticating && r.1 == Boot::Exchange(c),
        code is None && token is Some ==> r.0 is Connecting && r.1 == Boot::Connect(token->0),
        code is None && token is None ==> r.0 is NeedsLogin && r.1 is Wait,
{
    match code {
        Some(c) => (ConnState::Authenticating, Boot::Exchange(c)),
        None => match token {
            Some(t) => (ConnState::Connecting, Boot::Connect(t)),
            None => (ConnState::NeedsLogin, Boot::Wait),
        },
    }
}

/// What follows the exchange: the token is used, or the session fails.
pub fn exchanged(result: Result<String, String>) -> (r: (ConnState, Boot))
    ensures
        match result {
            Ok(t) => r.0 is Connecting && r.1 == Boot::Connect(t),
            Err(e) => r.0 matches ConnState::Failed(m) && m@ == "Login failed: "@ + e@ && r.1 is Wait,
        },
{
    match result {
        Ok(t) => (ConnState::Connecting, Boot::Connect(t)),
        Err(e) => {
            let mut v: Vec<char> = chars_of("Login failed: ");
            push_str(&mut v, e.as_str());
            (ConnState::Failed(text_of(&v)), Boot::Wait)
        },
    }
}

/// What follows the attempt to connect, and whether the stored token is to be
/// forgotten: one that did not connect is.
pub fn connected(result: Result<(), String>) -> (r: (ConnState, bool))
    ensures
        match result {
            Ok(_) => r.0 is Connected && !r.1,
            Err(e) => r.0 == ConnState::Failed(e) && r.1,
        },
{
    match result {
        Ok(_) => (ConnState::Connected, false),
        Err(e) => (ConnState::Failed(e), true),
    }
}

// ---- subscriptions ----------------------------------------------------------

/// The texts of several strings.
pub open spec fn texts(v: Seq<String>) -> Seq<Seq<char>> {
    v.map_values(|s: String| s@)
}

/// The rows that are always asked for.
pub fn base_queries() -> (r: Vec<String>)
    ensures
        texts(r@) == seq![
            "SELECT * FROM project"@,
            "SELECT * FROM edit_log"@,
            "SELECT * FROM song"@,
            "SELECT * FROM pattern"@,
        ],
{
    let mut v: Vec<String> = Vec::new();
    v.push("SELECT * FROM project".to_owned());
    v.push("SELECT * FROM edit_log".to_owned());
    v.push("SELECT * FROM song".to_owned());
    v.push("SELECT * FROM pattern".to_owned());
    assert(texts(v@) =~= seq![
        "SELECT * FROM project"@,
        "SELECT * FROM edit_log"@,
        "SELECT * FROM song"@,
        "SELECT * FROM pattern"@,
    ]);
    v
}

/// A query for a project's rows of a table.
pub open spec fn rows_query(table: Seq<char>, project: u64) -> Seq<char> {
    "SELECT * FROM "@ + table + " WHERE project_id = "@ + decimal(project as nat)
}

fn query(table: &str, project: u64) -> (r: String)
    ensures
        r@ == rows_query(table@, project),
{
    let mut v: Vec<char> = chars_of("SELECT * FROM ");
    push_str(&mut v, table);
    push_str(&mut v, " WHERE project_id = ");
    push_decimal(&mut v, project);
    text_of(&v)
}

/// The rows that are asked for while a project is open: its audio and its fixtures.
pub open spec fn open_queries(project: u64) -> Seq<Seq<char>> {
    seq![
        rows_query("song_chunk"@, project),
        rows_query("laser_kf"@, project),
        rows_query("projector_kf"@, project),
        rows_query("turret_kf"@, project),
    ]
}

/// The rows that are asked for while a project is open.
pub fn project_queries(project: u64) -> (r: Vec<String>)
    ensures
        texts(r@) == open_queries(project),
{
    let mut v: Vec<String> = Vec::new();
    v.push(query("song_chunk", project));
    v.push(query("laser_kf", project));
    v.push(query("projector_kf", project));
    v.push(query("turret_kf", project));
    assert(texts(v@) =~= open_queries(project));
    v
}

/// What becomes of the subscription to the open project's rows.
#[derive(Debug)]
pub enum SubStep {
    Keep,
    /// Ask for these rows, if any, then drop the old subscription.
    Change(Option<Vec<String>>),
}

/// Keeps the subscription in step with the open project: it changes exactly when
/// another one is open, or none any more.
pub fn sync_subscriptions(subscribed: Option<u64>, open: Option<u64>) -> (r: SubStep)
    ensures
        r is Keep <==> subscribed == open,
        r matches SubStep::Change(q) ==> match open {
            Some(project) => q is Some && texts(q->0@) == open_queries(project),
            None => q is None,
        },
{
    match (subscribed, open) {
        (None, None) => SubStep::Keep,
        (Some(a), Some(b)) => if a == b {
            SubStep::Keep
        } else {
            SubStep::Change(Some(project_queries(b)))
        },
        (None, Some(b)) => SubStep::Change(Some(project_queries(b))),
        (Some(_), None) => SubStep::Change(None),
    }
}

} // verus!
