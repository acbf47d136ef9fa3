//! What each endpoint decides, apart from the database and the network.

use vstd::prelude::*;
use crate::models::{DbEvent, DbGroup, EventResponse, uuid_hyphenated};

verus! {

pub const STATUS_OK: u16 = 200;
pub const STATUS_NO_CONTENT: u16 = 204;
pub const STATUS_NOT_FOUND: u16 = 404;
pub const STATUS_SERVICE_UNAVAILABLE: u16 = 503;

/// How long clients may cache a static file, in seconds.
pub const STATIC_FILES_MAX_AGE: u64 = 300;

/// The answer of the health check: 200 when the database answered a query, else 503.
pub fn health_status(database_answered: bool) -> (r: u16)
    ensures
        r == (if database_answered { STATUS_OK } else { STATUS_SERVICE_UNAVAILABLE }),
{
    if database_answered {
        STATUS_OK
    } else {
        STATUS_SERVICE_UNAVAILABLE
    }
}

/// The answer to deleting a group: 404 when no row was deleted, else 204.
pub fn delete_group_status(rows_affected: u64) -> (r: u16)
    ensures
        r == (if rows_affected == 0 { STATUS_NOT_FOUND } else { STATUS_NO_CONTENT }),
{
    if rows_affected == 0 {
        STATUS_NOT_FOUND
    } else {
        STATUS_NO_CONTENT
    }
}

/// The names of the stored groups, in their order.
pub fn group_names(groups: Vec<DbGroup>) -> (r: Vec<String>)
    ensures
        r@.len() == groups@.len(),
        forall|i: int| 0 <= i < groups@.len() ==> #[trigger] r@[i] == groups@[i].name,
{
    let ghost gs = groups@;
    let mut out: Vec<String> = Vec::new();
    for g in it: groups.into_iter()
        invariant
            it.seq() == gs,
            out@.len() == it.index(),
            forall|k: int| 0 <= k < out@.len() ==> #[trigger] out@[k] == gs[k].name,
    {
        out.push(g.name);
    }
    out
}

/// The answers for the stored events, in their order.
pub fn event_responses(events: Vec<DbEvent>) -> (r: Vec<EventResponse>)
    ensures
        r@.len() == events@.len(),
        forall|i: int| 0 <= i < events@.len() ==> {
            &&& (#[trigger] r@[i]).id@ == uuid_hyphenated(events@[i].id)
            &&& r@[i].name == events@[i].name
            &&& r@[i].email == events@[i].email
            &&& r@[i].description == events@[i].description
            &&& r@[i].group == events@[i].group
            &&& r@[i].start == events@[i].start
            &&& r@[i].end == events@[i].end
        },
{
    let ghost es = events@;
    let mut out: Vec<EventResponse> = Vec::new();
    for e in it: events.into_iter()
        invariant
            it.seq() == es,
            out@.len() == it.index(),
            forall|k: int| 0 <= k < out@.len() ==> {
                &&& (#[trigger] out@[k]).id@ == uuid_hyphenated(es[k].id)
                &&& out@[k].name == es[k].name
                &&& out@[k].email == es[k].email
                &&& out@[k].description == es[k].description
                &&& out@[k].group == es[k].group
                &&& out@[k].start == es[k].start
                &&& out@[k].end == es[k].end
            },
    {
        out.push(EventResponse::from(e));
    }
    out
}


/// The text with every leading `c` removed, as `str::trim_start_matches(c)` gives it.
pub open spec fn trim_leading(s: Seq<char>, c: char) -> Seq<char>
    decreases s.len(),
{
    if s.len() > 0 && s[0] == c {
        trim_leading(s.drop_first(), c)
    } else {
        s
    }
}

/// The file that a request path names: the path without its leading slashes.
pub fn static_file_path(uri_path: &str) -> (r: String)
    ensures
        r@ == trim_leading(uri_path@, '/'),
{
    let ghost s = uri_path@;
    let n = uri_path.unicode_len();
    let mut i: usize = 0;
    assert(s.skip(0) =~= s);
    while i < n && uri_path.get_char(i) == '/'
        invariant
            n == s.len(),
            s == uri_path@,
            0 <= i <= n,
            trim_leading(s, '/') == trim_leading(s.skip(i as int), '/'),
        decreases n - i,
    {
        assert(s.skip(i as int).drop_first() =~= s.skip(i + 1));
        i = i + 1;
    }
    proof {
        let t = s.skip(i as int);
        if i < n {
            assert(t[0] == s[i as int]);
        }
        assert(s.skip(i as int) =~= s.subrange(i as int, n as int));
    }
    uri_path.substring_char(i, n).to_owned()
}

/// Trimming removes the run of leading `c` and nothing else: the text is that
/// run followed by the trimmed text, so the trimmed text keeps every other
/// character, whatever its length, and is shorter exactly by the run's length.
pub proof fn lemma_trim_leading_removes_only_the_leading_run(s: Seq<char>, c: char)
    ensures
        exists|k: int| {
            &&& 0 <= k <= s.len()
            &&& (forall|i: int| 0 <= i < k ==> s[i] == c)
            &&& (k == s.len() || s[k] != c)
            &&& #[trigger] s.skip(k) == trim_leading(s, c)
            &&& s == Seq::new(k as nat, |i: int| c) + trim_leading(s, c)
            &&& trim_leading(s, c).len() == s.len() - k
        },
    decreases s.len(),
{
    if s.len() > 0 && s[0] == c {
        let t = s.drop_first();
        lemma_trim_leading_removes_only_the_leading_run(t, c);
        let k0 = choose|k: int| {
            &&& 0 <= k <= t.len()
            &&& (forall|i: int| 0 <= i < k ==> t[i] == c)
            &&& (k == t.len() || t[k] != c)
            &&& #[trigger] t.skip(k) == trim_leading(t, c)
            &&& t == Seq::new(k as nat, |i: int| c) + trim_leading(t, c)
            &&& trim_leading(t, c).len() == t.len() - k
        };
        let k = k0 + 1;
        assert(s.skip(k) =~= t.skip(k0));
        assert forall|i: int| 0 <= i < k implies s[i] == c by {
            if i > 0 {
                assert(s[i] == t[i - 1]);
            }
        }
        assert(s =~= Seq::new(k as nat, |i: int| c) + trim_leading(s, c)) by {
            assert(trim_leading(s, c) == trim_leading(t, c));
            assert forall|i: int| 0 <= i < s.len() implies s[i] == (Seq::new(k as nat, |i: int| c) + trim_leading(s, c))[i] by {
                if i > 0 {
                    assert(s[i] == t[i - 1]);
                    assert(t[i - 1] == (Seq::new(k0 as nat, |i: int| c) + trim_leading(t, c))[i - 1]);
                }
            }
        }
        assert(s.skip(k) == trim_leading(s, c));
    } else {
        assert(s.skip(0) =~= s);
        assert(s =~= Seq::new(0, |i: int| c) + s);
        assert(s.skip(0) == trim_leading(s, c));
    }
}

/// A trimmed path never starts with a slash, and trimming it again changes nothing.
pub proof fn lemma_trimmed_path_is_settled(s: Seq<char>)
    ensures
        !(trim_leading(s, '/').len() > 0 && trim_leading(s, '/')[0] == '/'),
        trim_leading(trim_leading(s, '/'), '/') == trim_leading(s, '/'),
    decreases s.len(),
{
    if s.len() > 0 && s[0] == '/' {
        lemma_trimmed_path_is_settled(s.drop_first());
    }
}

/// What `mime_guess::from_path(path).first_or_text_plain()` renders as text:
/// the MIME type that the path's extension maps to, or `text/plain`.
pub uninterp spec fn guessed_mime(path: Seq<char>) -> Seq<char>;

/// Calls `mime_guess::from_path(path).first_or_text_plain()` and renders the type.
/// Claimed: the text is `guessed_mime(path)`, a function of the path alone (a
/// static table of extensions, no disk access); and a path without a dot has no
/// extension, so its guess is empty and the type is `text/plain`.
#[verifier::external_body]
fn guess_mime(path: &str) -> (r: String)
    ensures
        r@ == guessed_mime(path@),
        !path@.contains('.') ==> r@ == "text/plain"@,
{
    mime_guess::from_path(path).first_or_text_plain().to_string()
}

/// How a static file is answered.
#[derive(Debug, PartialEq, Eq)]
pub enum StaticReply {
    /// No such file: 404 with an empty body.
    NotFound,
    /// The file, with its content type, cached publicly for `max_age_secs` seconds.
    File { content_type: String, max_age_secs: u64 },
}

/// The answer for the static file at `path` (already trimmed): 404 when there is
/// no such file, else the file with the content type its extension suggests and
/// public caching for `STATIC_FILES_MAX_AGE` seconds.
pub fn static_file_reply(path: &str, exists: bool) -> (r: StaticReply)
    ensures
        !exists ==> r == StaticReply::NotFound,
        exists ==> (r matches StaticReply::File { content_type, max_age_secs }
            && content_type@ == guessed_mime(path@) && max_age_secs == STATIC_FILES_MAX_AGE),
{
    if !exists {
        return StaticReply::NotFound;
    }
    StaticReply::File { content_type: guess_mime(path), max_age_secs: STATIC_FILES_MAX_AGE }
}

} // verus!
