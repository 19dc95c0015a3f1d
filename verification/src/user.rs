use crate::responses::{Request, UserAboutData};
use vstd::prelude::*;
use vstd::string::*;

verus! {

/// A user, known by name.
pub struct User {
    pub name: String,
}

/// What the about endpoint told of a user.
pub struct UserAbout {
    pub data: UserAboutData,
}

/// The path under which a subreddit offers its flairs for choice.
pub open spec fn flair_selector_url(subreddit: Seq<char>) -> Seq<char> {
    "/r/"@ + subreddit + "/api/flairselector"@
}

/// The path under which a subreddit takes a chosen flair.
pub open spec fn select_flair_url(subreddit: Seq<char>) -> Seq<char> {
    "/r/"@ + subreddit + "/api/selectflair"@
}

impl User {
    /// The user named `name`.
    pub fn new(name: &str) -> (u: User)
        ensures
            u.name@ == name@,
    {
        User { name: name.to_owned() }
    }

    /// Where to read what is known of this user.
    pub fn about(&self) -> (url: String)
        ensures
            url@ == "/user/"@ + self.name@ + "/about?raw_json=1"@,
    {
        "/user/".to_owned().concat(self.name.as_str()).concat("/about?raw_json=1")
    }

    /// The call that asks which flairs this user may bear in `subreddit`.
    pub fn flair_options(&self, subreddit: &str) -> (r: Request)
        ensures
            r.url@ == flair_selector_url(subreddit@),
            r.body@ == "user="@ + self.name@,
    {
        Request {
            url: "/r/".to_owned().concat(subreddit).concat("/api/flairselector"),
            body: "user=".to_owned().concat(self.name.as_str()),
        }
    }

    /// The call that gives this user the flair `template` in `subreddit`.
    pub fn flair(&self, subreddit: &str, template: &str) -> (r: Request)
        ensures
            r.url@ == select_flair_url(subreddit@),
            r.body@ == "api_type=json&user="@ + self.name@ + "&flair_template_id="@ + template@,
    {
        Request {
            url: "/r/".to_owned().concat(subreddit).concat("/api/selectflair"),
            body: "api_type=json&user=".to_owned().concat(self.name.as_str()).concat(
                "&flair_template_id=",
            ).concat(template),
        }
    }

    /// The listing of what this user has submitted.
    pub fn submissions(&self) -> (url: String)
        ensures
            url@ == "/user/"@ + self.name@ + "/comments?raw_json=1"@,
    {
        "/user/".to_owned().concat(self.name.as_str()).concat("/comments?raw_json=1")
    }
}

impl UserAbout {
    /// Wraps the decoded answer of the about endpoint.
    pub fn new(data: UserAboutData) -> (a: UserAbout)
        ensures
            a.data == data,
    {
        UserAbout { data }
    }

    /// The user's link karma.
    pub fn link_karma(&self) -> (k: i64)
        ensures
            k == self.data.link_karma,
    {
        self.data.link_karma
    }

    /// The user's comment karma.
    pub fn comment_karma(&self) -> (k: i64)
        ensures
            k == self.data.comment_karma,
    {
        self.data.comment_karma
    }

    /// The user's id, without its kind.
    pub fn id(&self) -> (s: &str)
        ensures
            s@ == self.data.id@,
    {
        self.data.id.as_str()
    }

    /// When the account was made, in the site's local seconds.
    pub fn created(&self) -> (t: i64)
        ensures
            t == self.data.created,
    {
        self.data.created
    }

    /// When the account was made, in seconds of UTC.
    pub fn created_utc(&self) -> (t: i64)
        ensures
            t == self.data.created_utc,
    {
        self.data.created_utc
    }
}

} // verus!
