use vstd::prelude::*;

verus! {

/// The answer of the token endpoint: the access token of an OAuth sign-in, how
/// many seconds it lasts, and what it is good for.
#[derive(Debug)]
pub struct TokenResponseData {
    pub access_token: String,
    pub expires_in: u64,
    pub scope: String,
    pub token_type: String,
}

/// What the payload says of a post's edits: a plain flag, or the time of the
/// last edit in whole seconds, or something that is neither.
#[derive(Clone, Copy, Debug, PartialEq, Eq, Structural)]
pub enum Edited {
    Flag(bool),
    At(i64),
    Other,
}

/// A submission as the listing endpoints describe it. Times are whole seconds.
pub struct SubmissionData {
    pub name: String,
    pub id: String,
    pub title: String,
    pub author: String,
    pub subreddit: String,
    pub is_self: bool,
    pub url: Option<String>,
    pub selftext: String,
    pub selftext_html: Option<String>,
    pub over_18: bool,
    pub stickied: bool,
    pub locked: bool,
    pub hidden: bool,
    pub score: i64,
    pub likes: Option<bool>,
    pub num_comments: u64,
    pub num_reports: Option<u64>,
    pub distinguished: Option<String>,
    pub link_flair_text: Option<String>,
    pub link_flair_css_class: Option<String>,
    pub author_flair_text: Option<String>,
    pub author_flair_css_class: Option<String>,
    pub edited: Edited,
    pub created: i64,
    pub created_utc: i64,
}

/// One flair that can be picked.
pub struct FlairChoice {
    pub flair_text: String,
    pub flair_template_id: String,
    pub flair_css_class: String,
}

/// What the about endpoint says of a user. Times are whole seconds.
#[derive(Debug)]
pub struct UserAboutData {
    pub name: String,
    pub is_friend: bool,
    pub hide_from_robots: bool,
    pub id: String,
    pub created: i64,
    pub created_utc: i64,
    pub link_karma: i64,
    pub comment_karma: i64,
    pub is_gold: bool,
    pub is_mod: bool,
    pub has_verified_email: bool,
}

/// A private message or a reply notice from the inbox. Times are whole
/// seconds; `replies` is the JSON text of whatever the payload held there.
#[derive(Debug)]
pub struct MessageData {
    pub author: Option<String>,
    pub body: String,
    pub body_html: String,
    pub context: String,
    pub first_message_name: Option<String>,
    pub likes: Option<bool>,
    pub name: String,
    pub link_title: Option<String>,
    pub parent_id: Option<String>,
    pub replies: String,
    pub subject: String,
    pub subreddit: Option<String>,
    pub was_comment: bool,
    pub created: i64,
    pub created_utc: i64,
}

/// A call for the transport to make: the path to post to or to get, and the
/// form body (empty for a get).
pub struct Request {
    pub url: String,
    pub body: String,
}

} // verus!
