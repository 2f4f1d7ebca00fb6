//! Event-archive record types shared across the tools: actors,
//! repositories, commits and the other building blocks of an archived
//! event, with the parser and processor handles that work on them.
//! Instants are UTC unix timestamps in seconds.

use vstd::prelude::*;

verus! {

/// The account an event is attributed to.
#[derive(Debug)]
pub struct Actor {
    pub id: i64,
    pub login: String,
    pub display_login: Option<String>,
    pub gravatar_id: Option<String>,
    pub url: Option<String>,
    pub avatar_url: Option<String>,
}

/// The repository an event touches.
#[derive(Debug)]
pub struct Repo {
    pub id: i64,
    pub name: String,
    pub url: Option<String>,
}

/// The organization owning the repository, when known.
#[derive(Debug)]
pub struct Org {
    pub id: i64,
    pub login: String,
    pub gravatar_id: Option<String>,
    pub url: Option<String>,
    pub avatar_url: Option<String>,
}

/// An issue or pull-request label.
#[derive(Debug)]
pub struct Label {
    pub id: i64,
    pub url: String,
    pub name: String,
    pub color: String,
    pub default: bool,
}

/// One commit of a push event.
#[derive(Debug)]
pub struct Commit {
    pub sha: String,
    pub author: CommitAuthor,
    pub message: String,
    pub distinct: bool,
    pub url: String,
}

#[derive(Debug)]
pub struct CommitAuthor {
    pub email: String,
    pub name: String,
}

/// One wiki page touched by a gollum event.
#[derive(Debug)]
pub struct Page {
    pub page_name: String,
    pub title: String,
    pub summary: Option<String>,
    pub action: String,
    pub sha: String,
    pub html_url: String,
}

/// A team requested for review.
#[derive(Debug)]
pub struct Team {
    pub id: i64,
    pub name: String,
    pub slug: String,
    pub description: Option<String>,
    pub privacy: String,
    pub url: String,
    pub html_url: String,
    pub members_url: String,
    pub repositories_url: String,
    pub permission: String,
}

/// One end of a pull request.
#[derive(Debug)]
pub struct PullRequestRef {
    pub label: String,
    pub ref_name: String,
    pub sha: String,
    pub user: Actor,
    pub repo: Option<Repo>,
}

/// Handle for turning archived event text into records.  Decoding
/// itself happens outside the engine.
#[derive(Debug)]
pub struct GHAParser {}

impl GHAParser {
    pub fn new() -> (r: Self)
        ensures
            r == (GHAParser {  }),
    {
        GHAParser {  }
    }
}

/// Handle for pushing parsed events onward.
#[derive(Debug)]
pub struct GHAProcessor {}

impl GHAProcessor {
    pub fn new() -> (r: Self)
        ensures
            r == (GHAProcessor {  }),
    {
        GHAProcessor {  }
    }
}

} // verus!
