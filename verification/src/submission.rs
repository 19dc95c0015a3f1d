use crate::comment_stream::{CommentStream, POLL_INTERVAL, StreamState};
use crate::errors::APIError;
use crate::responses::{Edited, FlairChoice, Request, SubmissionData};
use crate::user::{flair_selector_url, select_flair_url, User};
use vstd::prelude::*;
use vstd::string::*;

verus! {

/// A link post or a self post.
pub struct Submission {
    pub data: SubmissionData,
}

/// The flairs that can be given to a post or a user.
pub struct FlairList {
    pub flairs: Vec<FlairChoice>,
}

/// A submission of which only the fullname is known yet.
pub struct LazySubmission {
    pub id: String,
}

/// The form body that names one thing by its fullname.
pub open spec fn id_body(name: Seq<char>) -> Seq<char> {
    "id="@ + name
}

/// One decimal digit as text.
pub open spec fn digit(d: int) -> Seq<char> {
    if d == 0 {
        "0"@
    } else if d == 1 {
        "1"@
    } else if d == 2 {
        "2"@
    } else if d == 3 {
        "3"@
    } else if d == 4 {
        "4"@
    } else if d == 5 {
        "5"@
    } else if d == 6 {
        "6"@
    } else if d == 7 {
        "7"@
    } else if d == 8 {
        "8"@
    } else {
        "9"@
    }
}

/// A natural number in decimal, without leading zeros.
pub open spec fn digits(n: nat) -> Seq<char>
    decreases n,
{
    if n < 10 {
        digit(n as int)
    } else {
        digits(n / 10) + digit((n % 10) as int)
    }
}

/// An integer in decimal, with a minus sign where it is negative.
pub open spec fn decimal(n: int) -> Seq<char> {
    if n < 0 {
        "-"@ + digits((-n) as nat)
    } else {
        digits(n as nat)
    }
}

/// The position of the first flair at or after `from` whose text is `text`.
pub open spec fn first_with_text(flairs: Seq<FlairChoice>, text: Seq<char>, from: int) -> Option<int>
    decreases flairs.len() - from,
{
    if from < 0 || from >= flairs.len() {
        None
    } else if flairs[from].flair_text@ == text {
        Some(from)
    } else {
        first_with_text(flairs, text, from + 1)
    }
}

/// The first position at or after `from` at which `text` holds an underscore;
/// the length of `text` where it holds none.
pub open spec fn underscore_from(text: Seq<char>, from: int) -> int
    decreases text.len() - from,
{
    if from < 0 || from >= text.len() {
        text.len() as int
    } else if text[from] == '_' {
        from
    } else {
        underscore_from(text, from + 1)
    }
}

/// The part of a fullname between its first underscore and the next one, or
/// the end: the bare id without the kind in front.
pub open spec fn bare_id(name: Seq<char>) -> Seq<char> {
    let start = underscore_from(name, 0) + 1;
    name.subrange(start, underscore_from(name, start))
}

/// No underscore stands before the one that `underscore_from` finds.
proof fn lemma_first_is_first(text: Seq<char>, from: int, i: int)
    requires
        0 <= from <= i < text.len(),
        text[i] == '_',
    ensures
        underscore_from(text, from) <= i,
    decreases text.len() - from,
{
    if text[from] != '_' {
        lemma_first_is_first(text, from + 1, i);
    }
}

/// What `underscore_from` finds short of the end is an underscore.
proof fn lemma_found_is_underscore(text: Seq<char>, from: int)
    requires
        0 <= from <= text.len(),
        underscore_from(text, from) < text.len(),
    ensures
        text[underscore_from(text, from)] == '_',
    decreases text.len() - from,
{
    if from < text.len() && text[from] != '_' {
        lemma_found_is_underscore(text, from + 1);
    }
}

fn find_underscore(text: &str, from: usize) -> (r: usize)
    requires
        from <= text@.len(),
    ensures
        r == underscore_from(text@, from as int),
        from <= r <= text@.len(),
{
    let n: usize = text.unicode_len();
    let mut i: usize = from;
    while i < n && text.get_char(i) != '_'
        invariant
            n == text@.len(),
            from <= i <= n,
            underscore_from(text@, from as int) == underscore_from(text@, i as int),
        decreases n - i,
    {
        i += 1;
    }
    i
}

fn copy_text(text: &Option<String>) -> (r: Option<String>)
    ensures
        r == *text,
{
    match text {
        Some(s) => Some(s.clone()),
        None => None,
    }
}

fn digit_text(d: i16) -> (r: &'static str)
    requires
        0 <= d < 10,
    ensures
        r@ == digit(d as int),
{
    if d == 0 {
        "0"
    } else if d == 1 {
        "1"
    } else if d == 2 {
        "2"
    } else if d == 3 {
        "3"
    } else if d == 4 {
        "4"
    } else if d == 5 {
        "5"
    } else if d == 6 {
        "6"
    } else if d == 7 {
        "7"
    } else if d == 8 {
        "8"
    } else {
        "9"
    }
}

/// A small integer as decimal text.
pub fn decimal_text(n: i8) -> (r: String)
    ensures
        r@ == decimal(n as int),
{
    let wide: i16 = n as i16;
    let m: i16 = if wide < 0 {
        -wide
    } else {
        wide
    };
    let sign = if wide < 0 {
        "-"
    } else {
        ""
    };
    proof {
        reveal_strlit("");
        reveal_with_fuel(digits, 3);
        assert(""@ + digits(m as nat) =~= digits(m as nat));
    }
    let out = sign.to_owned();
    if m >= 100 {
        out.concat(digit_text(m / 100)).concat(digit_text((m / 10) % 10)).concat(digit_text(m % 10))
    } else if m >= 10 {
        out.concat(digit_text(m / 10)).concat(digit_text(m % 10))
    } else {
        out.concat(digit_text(m))
    }
}

impl Submission {
    /// Wraps a decoded submission.
    pub fn new(data: SubmissionData) -> (s: Submission)
        ensures
            s.data == data,
    {
        Submission { data }
    }

    /// The stream of the comments that appear under this post from now on:
    /// polling at the fixed interval, with nothing seen yet.
    pub fn reply_stream(self) -> (s: CommentStream)
        ensures
            s.link_name == self.data.name,
            s.link_id == self.data.id,
            s.interval == POLL_INTERVAL,
            s.state == StreamState::Polling,
            s.seen@ == Set::<Seq<char>>::empty(),
    {
        CommentStream::new(self.data.name, self.data.id)
    }

    /// The title, without any flair.
    pub fn title(&self) -> (r: &str)
        ensures
            r@ == self.data.title@,
    {
        self.data.title.as_str()
    }

    /// The fullname.
    pub fn name(&self) -> (r: &str)
        ensures
            r@ == self.data.name@,
    {
        self.data.name.as_str()
    }

    /// The author.
    pub fn author(&self) -> (u: User)
        ensures
            u.name@ == self.data.author@,
    {
        User::new(self.data.author.as_str())
    }

    /// The name of the subreddit that the post stands in.
    pub fn subreddit(&self) -> (r: &str)
        ensures
            r@ == self.data.subreddit@,
    {
        self.data.subreddit.as_str()
    }

    /// The post's own text; `None` where it has none.
    pub fn body(&self) -> (r: Option<String>)
        ensures
            self.data.selftext@.len() == 0 ==> r is None,
            self.data.selftext@.len() > 0 ==> r == Some(self.data.selftext),
    {
        if self.data.selftext.as_str().is_empty() {
            None
        } else {
            Some(self.data.selftext.clone())
        }
    }

    /// Whether the post was edited, where the payload says so with a flag.
    pub fn edited(&self) -> (r: bool)
        requires
            self.data.edited is Flag,
        ensures
            self.data.edited == Edited::Flag(r),
    {
        match self.data.edited {
            Edited::Flag(b) => b,
            _ => false,
        }
    }

    /// The time of the last edit, where the payload gives one.
    pub fn edited_time(&self) -> (r: Option<i64>)
        ensures
            match self.data.edited {
                Edited::At(t) => r == Some(t),
                _ => r is None,
            },
    {
        match self.data.edited {
            Edited::At(t) => Some(t),
            _ => None,
        }
    }

    /// True for a self post, false for a link post.
    pub fn is_self_post(&self) -> (r: bool)
        ensures
            r == self.data.is_self,
    {
        self.data.is_self
    }

    /// True when the post is marked as not safe for work.
    pub fn nsfw(&self) -> (r: bool)
        ensures
            r == self.data.over_18,
    {
        self.data.over_18
    }

    /// True when the post is pinned to the top of its subreddit.
    pub fn stickied(&self) -> (r: bool)
        ensures
            r == self.data.stickied,
    {
        self.data.stickied
    }

    /// True when the post takes no new comments.
    pub fn locked(&self) -> (r: bool)
        ensures
            r == self.data.locked,
    {
        self.data.locked
    }

    /// True when the signed-in user has hidden the post.
    pub fn hidden(&self) -> (r: bool)
        ensures
            r == self.data.hidden,
    {
        self.data.hidden
    }

    /// Upvotes less downvotes.
    pub fn score(&self) -> (r: i64)
        ensures
            r == self.data.score,
    {
        self.data.score
    }

    /// How the signed-in user voted: up, down, or not at all.
    pub fn likes(&self) -> (r: Option<bool>)
        ensures
            r == self.data.likes,
    {
        self.data.likes
    }

    /// The number of comments under the post.
    pub fn reply_count(&self) -> (r: u64)
        ensures
            r == self.data.num_comments,
    {
        self.data.num_comments
    }

    /// The number of reports, where the signed-in user may see it.
    pub fn report_count(&self) -> (r: Option<u64>)
        ensures
            r == self.data.num_reports,
    {
        self.data.num_reports
    }

    /// When the post was made, in the site's local seconds.
    pub fn created(&self) -> (r: i64)
        ensures
            r == self.data.created,
    {
        self.data.created
    }

    /// When the post was made, in seconds of UTC.
    pub fn created_utc(&self) -> (r: i64)
        ensures
            r == self.data.created_utc,
    {
        self.data.created_utc
    }

    /// The address that a link post points to; a self post has none.
    pub fn link_url(&self) -> (r: Option<String>)
        ensures
            r == self.data.url,
    {
        copy_text(&self.data.url)
    }

    /// The post's own text as HTML, where it has any.
    pub fn body_html(&self) -> (r: Option<String>)
        ensures
            r == self.data.selftext_html,
    {
        copy_text(&self.data.selftext_html)
    }

    /// The text of the author's flair.
    pub fn author_flair_text(&self) -> (r: Option<String>)
        ensures
            r == self.data.author_flair_text,
    {
        copy_text(&self.data.author_flair_text)
    }

    /// The CSS class of the author's flair.
    pub fn author_flair_css(&self) -> (r: Option<String>)
        ensures
            r == self.data.author_flair_css_class,
    {
        copy_text(&self.data.author_flair_css_class)
    }

    /// The text of the post's flair.
    pub fn get_flair_text(&self) -> (r: Option<String>)
        ensures
            r == self.data.link_flair_text,
    {
        copy_text(&self.data.link_flair_text)
    }

    /// The CSS class of the post's flair.
    pub fn get_flair_css(&self) -> (r: Option<String>)
        ensures
            r == self.data.link_flair_css_class,
    {
        copy_text(&self.data.link_flair_css_class)
    }

    /// How the post is distinguished, if it is.
    pub fn distinguished(&self) -> (r: Option<String>)
        ensures
            r == self.data.distinguished,
    {
        copy_text(&self.data.distinguished)
    }

    /// The call that replaces the post's own text. `escaped` is the new text
    /// as it goes into a form body.
    pub fn edit_request(&self, escaped: &str) -> (r: Request)
        ensures
            r.url@ == "/api/editusertext"@,
            r.body@ == "api_type=json&text="@ + escaped@ + "&thing_id="@ + self.data.name@,
    {
        Request {
            url: "/api/editusertext".to_owned(),
            body: "api_type=json&text=".to_owned().concat(escaped).concat("&thing_id=").concat(
                self.data.name.as_str(),
            ),
        }
    }

    /// Takes the outcome of the call of `edit_request`. The post's own text
    /// is `text` once the site has agreed. A failure is handed on and changes
    /// nothing.
    pub fn edit(&mut self, text: &str, outcome: Result<(), APIError>) -> (r: Result<(), APIError>)
        ensures
            r == outcome,
            outcome is Err ==> final(self).data == old(self).data,
            outcome is Ok ==> final(self).data == (SubmissionData {
                selftext: final(self).data.selftext,
                ..old(self).data
            }),
            outcome is Ok ==> final(self).data.selftext@ == text@,
    {
        if outcome.is_ok() {
            self.data.selftext = text.to_owned();
        }
        outcome
    }

    /// The call that answers this post with a comment. `escaped` is the
    /// comment's text as it goes into a form body.
    pub fn reply(&self, escaped: &str) -> (r: Request)
        ensures
            r.url@ == "/api/comment"@,
            r.body@ == "api_type=json&text="@ + escaped@ + "&thing_id="@ + self.data.name@,
    {
        Request {
            url: "/api/comment".to_owned(),
            body: "api_type=json&text=".to_owned().concat(escaped).concat("&thing_id=").concat(
                self.data.name.as_str(),
            ),
        }
    }

    /// The call that reports this post. `escaped` is the reason as it goes
    /// into a form body.
    pub fn report(&self, escaped: &str) -> (r: Request)
        ensures
            r.url@ == "/api/report"@,
            r.body@ == "api_type=json&thing_id="@ + self.data.name@ + "&reason="@ + escaped@,
    {
        Request {
            url: "/api/report".to_owned(),
            body: "api_type=json&thing_id=".to_owned().concat(self.data.name.as_str()).concat(
                "&reason=",
            ).concat(escaped),
        }
    }

    /// The call that casts a vote on this post: 1 for up, -1 for down, 0 to
    /// take the vote back.
    pub fn vote(&self, dir: i8) -> (r: Request)
        ensures
            r.url@ == "/api/vote"@,
            r.body@ == "dir="@ + decimal(dir as int) + "&id="@ + self.data.name@,
    {
        let dir_text = decimal_text(dir);
        Request {
            url: "/api/vote".to_owned(),
            body: "dir=".to_owned().concat(dir_text.as_str()).concat("&id=").concat(
                self.data.name.as_str(),
            ),
        }
    }

    /// The call that votes this post up.
    pub fn upvote(&self) -> (r: Request)
        ensures
            r.url@ == "/api/vote"@,
            r.body@ == "dir="@ + decimal(1) + "&id="@ + self.data.name@,
    {
        self.vote(1)
    }

    /// The call that votes this post down.
    pub fn downvote(&self) -> (r: Request)
        ensures
            r.url@ == "/api/vote"@,
            r.body@ == "dir="@ + decimal(-1) + "&id="@ + self.data.name@,
    {
        self.vote(-1)
    }

    /// The call that takes the vote on this post back.
    pub fn cancel_vote(&self) -> (r: Request)
        ensures
            r.url@ == "/api/vote"@,
            r.body@ == "dir="@ + decimal(0) + "&id="@ + self.data.name@,
    {
        self.vote(0)
    }

    /// The call that deletes this post.
    pub fn delete(&self) -> (r: Request)
        ensures
            r.url@ == "/api/del"@,
            r.body@ == id_body(self.data.name@),
    {
        Request { url: "/api/del".to_owned(), body: "id=".to_owned().concat(self.data.name.as_str()) }
    }

    /// The call that approves this post.
    pub fn approve(&self) -> (r: Request)
        ensures
            r.url@ == "/api/approve"@,
            r.body@ == id_body(self.data.name@),
    {
        Request { url: "/api/approve".to_owned(), body: "id=".to_owned().concat(self.data.name.as_str()) }
    }

    /// The call that silences reports on this post.
    pub fn ignore_reports(&self) -> (r: Request)
        ensures
            r.url@ == "/api/ignore_reports"@,
            r.body@ == id_body(self.data.name@),
    {
        Request { url: "/api/ignore_reports".to_owned(), body: "id=".to_owned().concat(self.data.name.as_str()) }
    }

    /// The call that listens again to reports on this post.
    pub fn unignore_reports(&self) -> (r: Request)
        ensures
            r.url@ == "/api/unignore_reports"@,
            r.body@ == id_body(self.data.name@),
    {
        Request { url: "/api/unignore_reports".to_owned(), body: "id=".to_owned().concat(self.data.name.as_str()) }
    }

    /// The call that removes this post, as spam or not.
    pub fn remove(&self, spam: bool) -> (r: Request)
        ensures
            r.url@ == "/api/remove"@,
            r.body@ == id_body(self.data.name@) + (if spam {
                "&spam=true"@
            } else {
                "&spam=false"@
            }),
    {
        let tail = if spam {
            "&spam=true"
        } else {
            "&spam=false"
        };
        Request {
            url: "/api/remove".to_owned(),
            body: "id=".to_owned().concat(self.data.name.as_str()).concat(tail),
        }
    }

    /// Where to read the comments under this post.
    pub fn replies(&self) -> (url: String)
        ensures
            url@ == "/comments/"@ + self.data.id@,
    {
        "/comments/".to_owned().concat(self.data.id.as_str())
    }

    /// The call that asks which flairs this post may bear.
    pub fn flair_options(&self) -> (r: Request)
        ensures
            r.url@ == flair_selector_url(self.data.subreddit@),
            r.body@ == "link="@ + self.data.name@,
    {
        Request {
            url: "/r/".to_owned().concat(self.data.subreddit.as_str()).concat("/api/flairselector"),
            body: "link=".to_owned().concat(self.data.name.as_str()),
        }
    }

    /// The call that gives this post the flair `template`.
    pub fn flair(&self, template: &str) -> (r: Request)
        ensures
            r.url@ == select_flair_url(self.data.subreddit@),
            r.body@ == "api_type=json&link="@ + self.data.name@ + "&flair_template_id="@ + template@,
    {
        Request {
            url: "/r/".to_owned().concat(self.data.subreddit.as_str()).concat("/api/selectflair"),
            body: "api_type=json&link=".to_owned().concat(self.data.name.as_str()).concat(
                "&flair_template_id=",
            ).concat(template),
        }
    }

    /// The call that marks the post as not safe for work.
    pub fn mark_nsfw_request(&self) -> (r: Request)
        ensures
            r.url@ == "/api/marknsfw"@,
            r.body@ == id_body(self.data.name@),
    {
        Request { url: "/api/marknsfw".to_owned(), body: "id=".to_owned().concat(self.data.name.as_str()) }
    }

    /// Takes the outcome of the call of `mark_nsfw_request`. The post counts as not safe for work once the site has agreed.
    /// A failure is handed on and changes nothing.
    pub fn mark_nsfw(&mut self, outcome: Result<(), APIError>) -> (r: Result<(), APIError>)
        ensures
            r == outcome,
            outcome is Err ==> final(self).data == old(self).data,
            outcome is Ok ==> final(self).data == (SubmissionData { over_18: true, ..old(self).data }),
    {
        if outcome.is_ok() {
            self.data.over_18 = true;
        }
        outcome
    }

    /// The call that takes the mark off again.
    pub fn unmark_nsfw_request(&self) -> (r: Request)
        ensures
            r.url@ == "/api/unmarknsfw"@,
            r.body@ == id_body(self.data.name@),
    {
        Request { url: "/api/unmarknsfw".to_owned(), body: "id=".to_owned().concat(self.data.name.as_str()) }
    }

    /// Takes the outcome of the call of `unmark_nsfw_request`. The post counts as safe for work once the site has agreed.
    /// A failure is handed on and changes nothing.
    pub fn unmark_nsfw(&mut self, outcome: Result<(), APIError>) -> (r: Result<(), APIError>)
        ensures
            r == outcome,
            outcome is Err ==> final(self).data == old(self).data,
            outcome is Ok ==> final(self).data == (SubmissionData { over_18: false, ..old(self).data }),
    {
        if outcome.is_ok() {
            self.data.over_18 = false;
        }
        outcome
    }

    /// The call that pins the post to the top of its subreddit.
    pub fn stick_request(&self) -> (r: Request)
        ensures
            r.url@ == "/api/set_subreddit_sticky"@,
            r.body@ == "api_type=json&id="@ + self.data.name@ + "&state=true"@,
    {
        Request { url: "/api/set_subreddit_sticky".to_owned(), body: "api_type=json&id=".to_owned().concat(self.data.name.as_str()).concat("&state=true") }
    }

    /// Takes the outcome of the call of `stick_request`. The post counts as pinned once the site has agreed.
    /// A failure is handed on and changes nothing.
    pub fn stick(&mut self, outcome: Result<(), APIError>) -> (r: Result<(), APIError>)
        ensures
            r == outcome,
            outcome is Err ==> final(self).data == old(self).data,
            outcome is Ok ==> final(self).data == (SubmissionData { stickied: true, ..old(self).data }),
    {
        if outcome.is_ok() {
            self.data.stickied = true;
        }
        outcome
    }

    /// The call that takes the post off the top of its subreddit.
    pub fn unstick_request(&self) -> (r: Request)
        ensures
            r.url@ == "/api/set_subreddit_sticky"@,
            r.body@ == "api_type=json&id="@ + self.data.name@ + "&state=false"@,
    {
        Request { url: "/api/set_subreddit_sticky".to_owned(), body: "api_type=json&id=".to_owned().concat(self.data.name.as_str()).concat("&state=false") }
    }

    /// Takes the outcome of the call of `unstick_request`. The post counts as not pinned once the site has agreed.
    /// A failure is handed on and changes nothing.
    pub fn unstick(&mut self, outcome: Result<(), APIError>) -> (r: Result<(), APIError>)
        ensures
            r == outcome,
            outcome is Err ==> final(self).data == old(self).data,
            outcome is Ok ==> final(self).data == (SubmissionData { stickied: false, ..old(self).data }),
    {
        if outcome.is_ok() {
            self.data.stickied = false;
        }
        outcome
    }

    /// The call that closes the post to new comments.
    pub fn lock_request(&self) -> (r: Request)
        ensures
            r.url@ == "/api/lock"@,
            r.body@ == id_body(self.data.name@),
    {
        Request { url: "/api/lock".to_owned(), body: "id=".to_owned().concat(self.data.name.as_str()) }
    }

    /// Takes the outcome of the call of `lock_request`. The post counts as locked once the site has agreed.
    /// A failure is handed on and changes nothing.
    pub fn lock(&mut self, outcome: Result<(), APIError>) -> (r: Result<(), APIError>)
        ensures
            r == outcome,
            outcome is Err ==> final(self).data == old(self).data,
            outcome is Ok ==> final(self).data == (SubmissionData { locked: true, ..old(self).data }),
    {
        if outcome.is_ok() {
            self.data.locked = true;
        }
        outcome
    }

    /// The call that opens the post to new comments again.
    pub fn unlock_request(&self) -> (r: Request)
        ensures
            r.url@ == "/api/unlock"@,
            r.body@ == id_body(self.data.name@),
    {
        Request { url: "/api/unlock".to_owned(), body: "id=".to_owned().concat(self.data.name.as_str()) }
    }

    /// Takes the outcome of the call of `unlock_request`. The post counts as open once the site has agreed.
    /// A failure is handed on and changes nothing.
    pub fn unlock(&mut self, outcome: Result<(), APIError>) -> (r: Result<(), APIError>)
        ensures
            r == outcome,
            outcome is Err ==> final(self).data == old(self).data,
            outcome is Ok ==> final(self).data == (SubmissionData { locked: false, ..old(self).data }),
    {
        if outcome.is_ok() {
            self.data.locked = false;
        }
        outcome
    }

    /// The call that hides the post from the signed-in user's listings.
    pub fn hide_post_request(&self) -> (r: Request)
        ensures
            r.url@ == "/api/hide"@,
            r.body@ == id_body(self.data.name@),
    {
        Request { url: "/api/hide".to_owned(), body: "id=".to_owned().concat(self.data.name.as_str()) }
    }

    /// Takes the outcome of the call of `hide_post_request`. The post counts as hidden once the site has agreed.
    /// A failure is handed on and changes nothing.
    pub fn hide_post(&mut self, outcome: Result<(), APIError>) -> (r: Result<(), APIError>)
        ensures
            r == outcome,
            outcome is Err ==> final(self).data == old(self).data,
            outcome is Ok ==> final(self).data == (SubmissionData { hidden: true, ..old(self).data }),
    {
        if outcome.is_ok() {
            self.data.hidden = true;
        }
        outcome
    }

    /// The call that shows the post in the signed-in user's listings again.
    pub fn show_request(&self) -> (r: Request)
        ensures
            r.url@ == "/api/unhide"@,
            r.body@ == id_body(self.data.name@),
    {
        Request { url: "/api/unhide".to_owned(), body: "id=".to_owned().concat(self.data.name.as_str()) }
    }

    /// Takes the outcome of the call of `show_request`. The post counts as shown once the site has agreed.
    /// A failure is handed on and changes nothing.
    pub fn show(&mut self, outcome: Result<(), APIError>) -> (r: Result<(), APIError>)
        ensures
            r == outcome,
            outcome is Err ==> final(self).data == old(self).data,
            outcome is Ok ==> final(self).data == (SubmissionData { hidden: false, ..old(self).data }),
    {
        if outcome.is_ok() {
            self.data.hidden = false;
        }
        outcome
    }

    /// The call that marks this post as a moderator's.
    pub fn distinguish_request(&self) -> (r: Request)
        ensures
            r.url@ == "/api/distinguish"@,
            r.body@ == "api_type=json&how=yes&id="@ + self.data.name@,
    {
        Request {
            url: "/api/distinguish".to_owned(),
            body: "api_type=json&how=yes&id=".to_owned().concat(self.data.name.as_str()),
        }
    }

    /// Takes the outcome of the call of `distinguish_request`. The post counts
    /// as a moderator's once the site has agreed. A failure is handed on and
    /// changes nothing.
    pub fn distinguish(&mut self, outcome: Result<(), APIError>) -> (r: Result<(), APIError>)
        ensures
            r == outcome,
            outcome is Err ==> final(self).data == old(self).data,
            outcome is Ok ==> final(self).data == (SubmissionData {
                distinguished: final(self).data.distinguished,
                ..old(self).data
            }),
            outcome is Ok ==> (final(self).data.distinguished matches Some(how) && how@
                == "moderator"@),
    {
        if outcome.is_ok() {
            self.data.distinguished = Some("moderator".to_owned());
        }
        outcome
    }

    /// The call that takes the moderator's mark off this post.
    pub fn undistinguish_request(&self) -> (r: Request)
        ensures
            r.url@ == "/api/distinguish"@,
            r.body@ == "api_type=json&how=no&id="@ + self.data.name@,
    {
        Request {
            url: "/api/distinguish".to_owned(),
            body: "api_type=json&how=no&id=".to_owned().concat(self.data.name.as_str()),
        }
    }

    /// Takes the outcome of the call of `undistinguish_request`. The post
    /// counts as undistinguished once the site has agreed. A failure is handed
    /// on and changes nothing.
    pub fn undistinguish(&mut self, outcome: Result<(), APIError>) -> (r: Result<(), APIError>)
        ensures
            r == outcome,
            outcome is Err ==> final(self).data == old(self).data,
            outcome is Ok ==> final(self).data == (SubmissionData {
                distinguished: None,
                ..old(self).data
            }),
    {
        if outcome.is_ok() {
            self.data.distinguished = None;
        }
        outcome
    }
}

impl FlairList {
    /// The list of `choices`, in their order.
    pub fn new(choices: Vec<FlairChoice>) -> (l: FlairList)
        ensures
            l.flairs == choices,
    {
        FlairList { flairs: choices }
    }

    /// The template id of the first flair whose text is `text`; `None` where
    /// no flair has that text.
    pub fn find_text(self, text: &str) -> (r: Option<String>)
        ensures
            match first_with_text(self.flairs@, text@, 0) {
                Some(i) => 0 <= i < self.flairs@.len() && r == Some(self.flairs@[i].flair_template_id),
                None => r is None,
            },
    {
        let wanted = text.to_owned();
        let mut i: usize = 0;
        while i < self.flairs.len()
            invariant
                i <= self.flairs.len(),
                wanted@ == text@,
                first_with_text(self.flairs@, text@, 0) == first_with_text(self.flairs@, text@, i as int),
            decreases self.flairs.len() - i,
        {
            if self.flairs[i].flair_text == wanted {
                return Some(self.flairs[i].flair_template_id.clone());
            }
            i += 1;
        }
        None
    }
}

impl LazySubmission {
    /// The submission with fullname `id`, of which nothing is fetched yet.
    pub fn new(id: &str) -> (l: LazySubmission)
        ensures
            l.id@ == id@,
    {
        LazySubmission { id: id.to_owned() }
    }

    /// Where to read the submission itself.
    pub fn get(&self) -> (url: String)
        ensures
            url@ == "/by_id/"@ + self.id@ + "?raw_json=1"@,
    {
        "/by_id/".to_owned().concat(self.id.as_str()).concat("?raw_json=1")
    }

    /// Where to read the comments under the submission. The fullname must
    /// hold an underscore: the kind stands before it, the id behind it.
    pub fn replies(&self) -> (url: String)
        requires
            self.id@.contains('_'),
        ensures
            url@ == "/comments/"@ + bare_id(self.id@) + "?raw_json=1"@,
    {
        let name = self.id.as_str();
        // Reading the length bounds it by the largest usize, so that `first + 1` fits.
        let _fits: usize = name.unicode_len();
        let first = find_underscore(name, 0);
        proof {
            let i = choose|i: int| 0 <= i < name@.len() && name@[i] == '_';
            lemma_first_is_first(name@, 0, i);
        }
        let start: usize = first + 1;
        let end = find_underscore(name, start);
        "/comments/".to_owned().concat(name.substring_char(start, end)).concat("?raw_json=1")
    }

    /// True when `replies` can be asked: the fullname holds an underscore.
    pub fn has_kind(&self) -> (r: bool)
        ensures
            r == self.id@.contains('_'),
    {
        let name = self.id.as_str();
        let n: usize = name.unicode_len();
        let first = find_underscore(name, 0);
        proof {
            if first < n {
                assert(name@[first as int] == '_') by {
                    lemma_found_is_underscore(name@, 0);
                }
            } else {
                assert forall|i: int| 0 <= i < name@.len() implies name@[i] != '_' by {
                    if name@[i] == '_' {
                        lemma_first_is_first(name@, 0, i);
                    }
                }
            }
        }
        first < n
    }
}

} // verus!
