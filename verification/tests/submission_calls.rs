use threadline::comment_stream::StreamState;
use threadline::errors::{APIError, TransportError};
use threadline::responses::{
    Edited, FlairChoice, MessageData, SubmissionData, TokenResponseData, UserAboutData,
};
use threadline::submission::{decimal_text, FlairList, LazySubmission, Submission};
use threadline::user::{User, UserAbout};

fn data() -> SubmissionData {
    SubmissionData {
        name: "t3_abc".to_string(),
        id: "abc".to_string(),
        title: "A title".to_string(),
        author: "writer".to_string(),
        subreddit: "rust".to_string(),
        is_self: true,
        url: None,
        selftext: "hello".to_string(),
        selftext_html: Some("<p>hello</p>".to_string()),
        over_18: false,
        stickied: false,
        locked: false,
        hidden: false,
        score: 42,
        likes: Some(true),
        num_comments: 7,
        num_reports: None,
        distinguished: None,
        link_flair_text: Some("news".to_string()),
        link_flair_css_class: None,
        author_flair_text: None,
        author_flair_css_class: None,
        edited: Edited::Flag(false),
        created: 1_500_000_000,
        created_utc: 1_499_990_000,
    }
}

#[test]
fn getters_read_the_data() {
    let s = Submission::new(data());
    assert_eq!(s.title(), "A title");
    assert_eq!(s.name(), "t3_abc");
    assert!(s.is_self_post());
    assert_eq!(s.link_url(), None);
    assert!(!s.nsfw());
    assert_eq!(s.score(), 42);
    assert_eq!(s.likes(), Some(true));
    assert_eq!(s.reply_count(), 7);
    assert_eq!(s.report_count(), None);
    assert_eq!(s.body(), Some("hello".to_string()));
    assert_eq!(s.body_html(), Some("<p>hello</p>".to_string()));
    assert_eq!(s.get_flair_text(), Some("news".to_string()));
    assert_eq!(s.get_flair_css(), None);
    assert_eq!(s.author().name, "writer");
    assert_eq!(s.subreddit(), "rust");
    assert!(!s.edited());
    assert_eq!(s.edited_time(), None);
    assert_eq!(s.created(), 1_500_000_000);
    assert_eq!(s.created_utc(), 1_499_990_000);
    assert_eq!(s.distinguished(), None);
}

#[test]
fn empty_self_text_is_no_body() {
    let mut d = data();
    d.selftext = String::new();
    d.url = Some("https://example.org/".to_string());
    d.is_self = false;
    d.edited = Edited::At(1_600_000_000);
    let s = Submission::new(d);
    assert_eq!(s.body(), None);
    assert_eq!(s.link_url(), Some("https://example.org/".to_string()));
    assert!(!s.is_self_post());
    assert_eq!(s.edited_time(), Some(1_600_000_000));
}

#[test]
fn nsfw_mark_follows_the_outcome() {
    let mut s = Submission::new(data());
    let req = s.mark_nsfw_request();
    assert_eq!(req.url, "/api/marknsfw");
    assert_eq!(req.body, "id=t3_abc");
    let err = APIError::Transport(TransportError::Status(403));
    assert_eq!(s.mark_nsfw(Err(err)), Err(err));
    assert!(!s.nsfw());
    assert_eq!(s.mark_nsfw(Ok(())), Ok(()));
    assert!(s.nsfw());
    let req = s.unmark_nsfw_request();
    assert_eq!(req.url, "/api/unmarknsfw");
    assert_eq!(req.body, "id=t3_abc");
    assert_eq!(s.unmark_nsfw(Err(err)), Err(err));
    assert!(s.nsfw());
    assert_eq!(s.unmark_nsfw(Ok(())), Ok(()));
    assert!(!s.nsfw());
    assert_eq!(s.title(), "A title");
}

#[test]
fn flags_follow_the_outcome() {
    let mut s = Submission::new(data());
    assert_eq!(s.stick_request().body, "api_type=json&id=t3_abc&state=true");
    assert_eq!(s.unstick_request().body, "api_type=json&id=t3_abc&state=false");
    assert_eq!(s.stick_request().url, "/api/set_subreddit_sticky");
    assert_eq!(s.stick(Ok(())), Ok(()));
    assert!(s.stickied());
    assert_eq!(s.unstick(Ok(())), Ok(()));
    assert!(!s.stickied());
    assert_eq!(s.lock_request().url, "/api/lock");
    assert_eq!(s.lock(Ok(())), Ok(()));
    assert!(s.locked());
    assert_eq!(s.unlock_request().url, "/api/unlock");
    assert_eq!(s.unlock(Ok(())), Ok(()));
    assert!(!s.locked());
    assert_eq!(s.hide_post_request().url, "/api/hide");
    assert_eq!(s.hide_post(Ok(())), Ok(()));
    assert!(s.hidden());
    assert_eq!(s.show_request().url, "/api/unhide");
    assert_eq!(s.show(Ok(())), Ok(()));
    assert!(!s.hidden());
    assert_eq!(s.distinguish_request().body, "api_type=json&how=yes&id=t3_abc");
    assert_eq!(s.distinguish(Ok(())), Ok(()));
    assert_eq!(s.distinguished(), Some("moderator".to_string()));
    assert_eq!(s.undistinguish_request().body, "api_type=json&how=no&id=t3_abc");
    assert_eq!(s.undistinguish(Ok(())), Ok(()));
    assert_eq!(s.distinguished(), None);
}

#[test]
fn votes_are_written_in_decimal() {
    let s = Submission::new(data());
    assert_eq!(s.upvote().body, "dir=1&id=t3_abc");
    assert_eq!(s.downvote().body, "dir=-1&id=t3_abc");
    assert_eq!(s.cancel_vote().body, "dir=0&id=t3_abc");
    assert_eq!(s.vote(1).url, "/api/vote");
    assert_eq!(s.vote(-128).body, "dir=-128&id=t3_abc");
    assert_eq!(decimal_text(127), "127");
    assert_eq!(decimal_text(-128), "-128");
    assert_eq!(decimal_text(100), "100");
    assert_eq!(decimal_text(-10), "-10");
    assert_eq!(decimal_text(99), "99");
    assert_eq!(decimal_text(9), "9");
    assert_eq!(decimal_text(0), "0");
    for n in i8::MIN..=i8::MAX {
        assert_eq!(decimal_text(n), n.to_string());
    }
}

#[test]
fn moderation_calls_name_the_post() {
    let s = Submission::new(data());
    assert_eq!(s.approve().url, "/api/approve");
    assert_eq!(s.approve().body, "id=t3_abc");
    assert_eq!(s.remove(true).body, "id=t3_abc&spam=true");
    assert_eq!(s.remove(false).body, "id=t3_abc&spam=false");
    assert_eq!(s.remove(false).url, "/api/remove");
    assert_eq!(s.ignore_reports().url, "/api/ignore_reports");
    assert_eq!(s.unignore_reports().url, "/api/unignore_reports");
    assert_eq!(s.delete().url, "/api/del");
    assert_eq!(s.delete().body, "id=t3_abc");
    assert_eq!(s.replies(), "/comments/abc");
    assert_eq!(s.flair_options().url, "/r/rust/api/flairselector");
    assert_eq!(s.flair_options().body, "link=t3_abc");
    assert_eq!(s.flair("tpl").url, "/r/rust/api/selectflair");
    assert_eq!(s.flair("tpl").body, "api_type=json&link=t3_abc&flair_template_id=tpl");
}

#[test]
fn reply_stream_starts_empty_and_polling() {
    let stream = Submission::new(data()).reply_stream();
    assert_eq!(stream.link_name, "t3_abc");
    assert_eq!(stream.link_id, "abc");
    assert_eq!(stream.interval, 5);
    assert_eq!(stream.state, StreamState::Polling);
    assert!(stream.seen.names.is_empty());
}

fn choice(text: &str, id: &str) -> FlairChoice {
    FlairChoice { flair_text: text.to_string(), flair_template_id: id.to_string(), flair_css_class: String::new() }
}

#[test]
fn find_text_gives_the_first_match() {
    let list = || FlairList::new(vec![choice("news", "id1"), choice("tutorial", "id2"), choice("news", "id3")]);
    assert_eq!(list().flairs.len(), 3);
    assert_eq!(list().find_text("tutorial"), Some("id2".to_string()));
    assert_eq!(list().find_text("news"), Some("id1".to_string()));
    assert_eq!(list().find_text("meta"), None);
    assert_eq!(FlairList::new(vec![]).find_text("news"), None);
}

#[test]
fn lazy_submission_knows_where_to_look() {
    let lazy = LazySubmission::new("t3_abc");
    assert_eq!(lazy.id, "t3_abc");
    assert_eq!(lazy.get(), "/by_id/t3_abc?raw_json=1");
    assert!(lazy.has_kind());
    assert_eq!(lazy.replies(), "/comments/abc?raw_json=1");
    assert_eq!(LazySubmission::new("t3_abc_def").replies(), "/comments/abc?raw_json=1");
    assert_eq!(LazySubmission::new("t3_").replies(), "/comments/?raw_json=1");
    assert_eq!(LazySubmission::new("_x").replies(), "/comments/x?raw_json=1");
    assert!(!LazySubmission::new("abc").has_kind());
    assert!(!LazySubmission::new("").has_kind());
}

#[test]
fn user_calls() {
    let u = User::new("Aurora0001");
    assert_eq!(u.name, "Aurora0001");
    assert_eq!(u.about(), "/user/Aurora0001/about?raw_json=1");
    assert_eq!(u.submissions(), "/user/Aurora0001/comments?raw_json=1");
    let r = u.flair("rust", "tpl");
    assert_eq!(r.url, "/r/rust/api/selectflair");
    assert_eq!(r.body, "api_type=json&user=Aurora0001&flair_template_id=tpl");
    let r = u.flair_options("rust");
    assert_eq!(r.url, "/r/rust/api/flairselector");
    assert_eq!(r.body, "user=Aurora0001");
}

#[test]
fn user_about_reads_the_data() {
    let about = UserAbout::new(UserAboutData {
        name: "Aurora0001".to_string(),
        is_friend: false,
        hide_from_robots: false,
        id: "eqyvc".to_string(),
        created: 1_400_000_100,
        created_utc: 1_400_000_000,
        link_karma: 12,
        comment_karma: 34,
        is_gold: false,
        is_mod: true,
        has_verified_email: true,
    });
    assert_eq!(about.id(), "eqyvc");
    assert_eq!(about.link_karma(), 12);
    assert_eq!(about.comment_karma(), 34);
    assert_eq!(about.created(), 1_400_000_100);
    assert_eq!(about.created_utc(), 1_400_000_000);
}

#[test]
fn token_response_holds_its_fields() {
    let t = TokenResponseData {
        access_token: "SECRET-REDACTED".to_string(),
        expires_in: 3600,
        scope: "*".to_string(),
        token_type: "bearer".to_string(),
    };
    assert_eq!(t.expires_in, 3600);
    assert_eq!(t.token_type, "bearer");
}

#[test]
fn same_name_is_the_same_post() {
    let a = Submission::new(data());
    let mut other = data();
    other.title = "Another title".to_string();
    other.score = 0;
    let b = Submission::new(other);
    assert!(a == b);
    let mut third = data();
    third.name = "t3_xyz".to_string();
    assert!(a != Submission::new(third));
}

#[test]
fn edits_replies_and_reports() {
    let mut s = Submission::new(data());
    let call = s.edit_request("new%20text");
    assert_eq!(call.url, "/api/editusertext");
    assert_eq!(call.body, "api_type=json&text=new%20text&thing_id=t3_abc");
    let err = APIError::Transport(TransportError::NeedsReauthentication);
    assert_eq!(s.edit("new text", Err(err)), Err(err));
    assert_eq!(s.body(), Some("hello".to_string()));
    assert_eq!(s.edit("new text", Ok(())), Ok(()));
    assert_eq!(s.body(), Some("new text".to_string()));
    assert_eq!(s.reply("hi").url, "/api/comment");
    assert_eq!(s.reply("hi").body, "api_type=json&text=hi&thing_id=t3_abc");
    assert_eq!(s.report("spam").url, "/api/report");
    assert_eq!(s.report("spam").body, "api_type=json&thing_id=t3_abc&reason=spam");
}

#[test]
fn message_holds_its_fields() {
    let m = MessageData {
        author: Some("writer".to_string()),
        body: "hi".to_string(),
        body_html: "<p>hi</p>".to_string(),
        context: String::new(),
        first_message_name: None,
        likes: None,
        name: "t4_1".to_string(),
        link_title: None,
        parent_id: None,
        replies: "\"\"".to_string(),
        subject: "hello".to_string(),
        subreddit: None,
        was_comment: false,
        created: 10,
        created_utc: 5,
    };
    assert_eq!(m.name, "t4_1");
    assert_eq!(m.created - m.created_utc, 5);
    assert!(!m.was_comment);
}
