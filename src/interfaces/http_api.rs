use vstd::prelude::*;
use vstd::string::*;

use crate::application::ports::{EventQuery, FilterView};
use crate::domain::event::{opt_text, EventType};
use crate::interfaces::stream::{start_cursor, StreamSession};

verus! {

/// Results of a list query when the client gives no limit.
pub const DEFAULT_LIST_LIMIT: u32 = 100;

/// Largest number of results of a list query.
pub const MAX_LIST_LIMIT: u32 = 500;

/// Rows replayed on connect when the client gives no count.
pub const DEFAULT_REPLAY: u32 = 20;

/// Largest number of rows replayed on connect.
pub const MAX_REPLAY: u32 = 200;

pub open spec fn is_digit(c: char) -> bool {
    '0' <= c && c <= '9'
}

pub open spec fn all_digits(s: Seq<char>) -> bool {
    forall|i: int| 0 <= i < s.len() ==> is_digit(#[trigger] s[i])
}

/// The value of a string of decimal digits.
pub open spec fn digits_value(s: Seq<char>) -> int
    decreases s.len(),
{
    if s.len() == 0 {
        0
    } else {
        digits_value(s.drop_last()) * 10 + (s.last() as int - '0' as int)
    }
}

/// The integer a decimal text denotes: an optional `+` or `-`, then at
/// least one digit.
pub open spec fn int_text_value(s: Seq<char>) -> Option<int> {
    if s.len() > 0 && (s[0] == '-' || s[0] == '+') {
        let body = s.subrange(1, s.len() as int);
        if body.len() > 0 && all_digits(body) {
            Some(if s[0] == '-' { -digits_value(body) } else { digits_value(body) })
        } else {
            None
        }
    } else if s.len() > 0 && all_digits(s) {
        Some(digits_value(s))
    } else {
        None
    }
}

/// The `i64` a decimal text denotes, if it is one and in range.
pub open spec fn i64_text_value(s: Seq<char>) -> Option<i64> {
    match int_text_value(s) {
        Some(v) => if i64::MIN <= v <= i64::MAX { Some(v as i64) } else { None },
        None => None,
    }
}

proof fn lemma_digits_value_grows(s: Seq<char>, i: int)
    requires
        all_digits(s),
        0 <= i <= s.len(),
    ensures
        digits_value(s.take(i)) <= digits_value(s),
        0 <= digits_value(s.take(i)),
    decreases s.len() - i,
{
    if i < s.len() {
        lemma_digits_value_grows(s, i + 1);
        assert(s.take(i + 1).drop_last() =~= s.take(i));
        assert(is_digit(s[i]));
    } else {
        assert(s.take(i) =~= s);
        lemma_digits_value_nonneg(s);
    }
}

proof fn lemma_digits_value_nonneg(s: Seq<char>)
    requires
        all_digits(s),
    ensures
        0 <= digits_value(s),
    decreases s.len(),
{
    if s.len() > 0 {
        assert(all_digits(s.drop_last())) by {
            assert forall|i: int| 0 <= i < s.drop_last().len() implies is_digit(#[trigger] s.drop_last()[i]) by {
                assert(s.drop_last()[i] == s[i]);
            }
        }
        lemma_digits_value_nonneg(s.drop_last());
        assert(is_digit(s.last()));
    }
}

/// Reads a decimal integer: an optional sign, then at least one digit, and
/// nothing else; `None` when the text is not one or it overflows.
pub fn parse_i64(s: &str) -> (r: Option<i64>)
    ensures
        r == i64_text_value(s@),
{
    let len = s.unicode_len();
    if len == 0 {
        return None;
    }
    let first = s.get_char(0);
    let negative = first == '-';
    let start: usize = if first == '-' || first == '+' { 1 } else { 0 };
    if start == len {
        return None;
    }
    let ghost body = s@.subrange(start as int, len as int);
    let mut acc: u64 = 0;
    let mut i: usize = start;
    while i < len
        invariant
            start <= i <= len,
            len == s@.len(),
            start < len,
            s@[0] == first,
            start == (if first == '-' || first == '+' { 1usize } else { 0usize }),
            negative == (first == '-'),
            body == s@.subrange(start as int, len as int),
            forall|k: int| 0 <= k < i - start ==> is_digit(#[trigger] body[k]),
            acc as int == digits_value(body.take(i - start)),
            acc <= 9223372036854775808u64,
        decreases len - i,
    {
        let c = s.get_char(i);
        assert(c == body[i - start]);
        if c < '0' || c > '9' {
            proof {
                assert(!all_digits(body));
                if start == 0 {
                    assert(body =~= s@);
                }
            }
            return None;
        }
        let d = (c as u32 - '0' as u32) as u64;
        proof {
            assert(body.take(i - start + 1).drop_last() =~= body.take(i - start));
        }
        if acc > 922337203685477580u64 || (acc == 922337203685477580u64 && d > 8) {
            proof {
                if all_digits(body) {
                    lemma_digits_value_grows(body, i - start + 1);
                }
                if start == 0 {
                    assert(body =~= s@);
                }
            }
            return None;
        }
        acc = acc * 10 + d;
        i = i + 1;
    }
    assert(body.take(len - start) =~= body);
    proof {
        if start == 0 {
            assert(body =~= s@);
        }
    }
    if negative {
        Some((0i128 - acc as i128) as i64)
    } else if acc > 9223372036854775807u64 {
        None
    } else {
        Some(acc as i64)
    }
}

/// A character with the Unicode `White_Space` property (as `char::is_whitespace`).
pub open spec fn is_white_space(c: char) -> bool {
    ||| ('\u{9}' <= c && c <= '\u{d}')
    ||| c == ' '
    ||| c == '\u{85}'
    ||| c == '\u{a0}'
    ||| c == '\u{1680}'
    ||| ('\u{2000}' <= c && c <= '\u{200a}')
    ||| c == '\u{2028}'
    ||| c == '\u{2029}'
    ||| c == '\u{202f}'
    ||| c == '\u{205f}'
    ||| c == '\u{3000}'
}

/// The number of leading white-space characters of `s`.
pub open spec fn leading_ws(s: Seq<char>) -> nat
    decreases s.len(),
{
    if s.len() > 0 && is_white_space(s[0]) {
        1 + leading_ws(s.drop_first())
    } else {
        0
    }
}

/// The number of trailing white-space characters of `s`.
pub open spec fn trailing_ws(s: Seq<char>) -> nat
    decreases s.len(),
{
    if s.len() > 0 && is_white_space(s.last()) {
        1 + trailing_ws(s.drop_last())
    } else {
        0
    }
}

/// `s` without its leading and trailing white space (as `str::trim`).
pub open spec fn trim_text(s: Seq<char>) -> Seq<char> {
    let a = s.subrange(leading_ws(s) as int, s.len() as int);
    a.subrange(0, a.len() - trailing_ws(a))
}

proof fn lemma_leading_ws(s: Seq<char>, i: int)
    requires
        0 <= i <= s.len(),
        forall|k: int| 0 <= k < i ==> is_white_space(#[trigger] s[k]),
        i == s.len() || !is_white_space(s[i]),
    ensures
        leading_ws(s) == i,
    decreases i,
{
    if i > 0 {
        lemma_leading_ws(s.drop_first(), i - 1);
    }
}

proof fn lemma_trailing_ws(s: Seq<char>, i: int)
    requires
        0 <= i <= s.len(),
        forall|k: int| s.len() - i <= k < s.len() ==> is_white_space(#[trigger] s[k]),
        i == s.len() || !is_white_space(s[s.len() - 1 - i]),
    ensures
        trailing_ws(s) == i,
    decreases i,
{
    if i > 0 {
        let t = s.drop_last();
        assert forall|k: int| t.len() - (i - 1) <= k < t.len() implies is_white_space(#[trigger] t[k]) by {
            assert(t[k] == s[k]);
        }
        lemma_trailing_ws(t, i - 1);
    }
}

fn white_space(c: char) -> (r: bool)
    ensures
        r == is_white_space(c),
{
    ('\u{9}' <= c && c <= '\u{d}') || c == ' ' || c == '\u{85}' || c == '\u{a0}' || c == '\u{1680}'
        || ('\u{2000}' <= c && c <= '\u{200a}') || c == '\u{2028}' || c == '\u{2029}' || c == '\u{202f}'
        || c == '\u{205f}' || c == '\u{3000}'
}

/// The text with leading and trailing white space removed.
pub fn trim(s: &str) -> (r: &str)
    ensures
        r@ == trim_text(s@),
{
    let len = s.unicode_len();
    let mut a: usize = 0;
    while a < len && white_space(s.get_char(a))
        invariant
            len == s@.len(),
            a <= len,
            forall|k: int| 0 <= k < a ==> is_white_space(#[trigger] s@[k]),
        decreases len - a,
    {
        a = a + 1;
    }
    proof {
        lemma_leading_ws(s@, a as int);
    }
    let ghost rest = s@.subrange(a as int, len as int);
    let mut b: usize = len;
    while b > a && white_space(s.get_char(b - 1))
        invariant
            len == s@.len(),
            a <= b <= len,
            forall|k: int| b <= k < len ==> is_white_space(#[trigger] s@[k]),
        decreases b,
    {
        b = b - 1;
    }
    proof {
        assert forall|k: int| rest.len() - (len - b) <= k < rest.len() implies is_white_space(#[trigger] rest[k]) by {
            assert(rest[k] == s@[k + a]);
        }
        if b > a {
            assert(rest[rest.len() - 1 - (len - b)] == s@[b - 1]);
        }
        lemma_trailing_ws(rest, (len - b) as int);
    }
    let r = s.substring_char(a, b);
    assert(r@ =~= trim_text(s@));
    r
}

/// Seconds per unit of a relative time: `s`, `m`, `h` or `d`.
pub open spec fn unit_seconds(u: char) -> Option<int> {
    if u == 's' {
        Some(1)
    } else if u == 'm' {
        Some(60)
    } else if u == 'h' {
        Some(3600)
    } else if u == 'd' {
        Some(86400)
    } else {
        None
    }
}

/// The seconds a relative time (`24h`, `7d`, `3600s`) stands for: an integer
/// then one unit letter; `None` when malformed or out of range.
pub open spec fn since_seconds(s: Seq<char>) -> Option<i64> {
    if s.len() < 2 {
        None
    } else {
        match (i64_text_value(s.drop_last()), unit_seconds(s.last())) {
            (Some(n), Some(u)) => if i64::MIN <= n * u <= i64::MAX { Some((n * u) as i64) } else { None },
            _ => None,
        }
    }
}

/// The seconds an already trimmed relative time stands for.
pub fn parse_since_seconds(s: &str) -> (r: Option<i64>)
    ensures
        r == since_seconds(s@),
{
    let len = s.unicode_len();
    if len < 2 {
        return None;
    }
    let num = s.substring_char(0, len - 1);
    let unit = s.get_char(len - 1);
    proof {
        assert(num@ =~= s@.drop_last());
    }
    let n = match parse_i64(num) {
        Some(n) => n,
        None => return None,
    };
    let mult: i64 = if unit == 's' {
        1
    } else if unit == 'm' {
        60
    } else if unit == 'h' {
        3600
    } else if unit == 'd' {
        86400
    } else {
        return None;
    };
    let wide = n as i128 * mult as i128;
    if wide < i64::MIN as i128 || wide > i64::MAX as i128 {
        None
    } else {
        Some(wide as i64)
    }
}

/// The absolute lower time bound a relative time gives at `now`, saturating.
pub open spec fn since_epoch_at(s: Seq<char>, now: i64) -> Option<i64> {
    match since_seconds(trim_text(s)) {
        Some(secs) => Some(
            if now - secs < i64::MIN {
                i64::MIN
            } else if now - secs > i64::MAX {
                i64::MAX
            } else {
                (now - secs) as i64
            },
        ),
        None => None,
    }
}

/// Turns a relative time (`24h`, `7d`, `3600s`, surrounding whitespace
/// ignored) into the epoch it reaches back to from `now`.
pub fn parse_since_to_epoch(s: &str, now: i64) -> (r: Option<i64>)
    ensures
        r == since_epoch_at(s@, now),
{
    let t = trim(s);
    match parse_since_seconds(t) {
        Some(secs) => {
            let wide = now as i128 - secs as i128;
            Some(
                if wide < i64::MIN as i128 {
                    i64::MIN
                } else if wide > i64::MAX as i128 {
                    i64::MAX
                } else {
                    wide as i64
                },
            )
        },
        None => None,
    }
}

/// The event type a query's `type` parameter names.
pub open spec fn type_param(t: Seq<char>) -> Option<EventType> {
    if t == "release"@ {
        Some(EventType::GitHubRelease)
    } else if t == "branch"@ {
        Some(EventType::GitHubBranch)
    } else if t == "npm"@ {
        Some(EventType::NpmLatest)
    } else if t == "waweb"@ {
        Some(EventType::WhatsAppWebVersion)
    } else {
        None
    }
}

/// Reads a `type` parameter: `release`, `branch`, `npm` or `waweb`.
pub fn parse_type(t: &str) -> (r: Option<EventType>)
    ensures
        r == type_param(t@),
{
    let s = String::from_str(t);
    if s == String::from_str("release") {
        Some(EventType::GitHubRelease)
    } else if s == String::from_str("branch") {
        Some(EventType::GitHubBranch)
    } else if s == String::from_str("npm") {
        Some(EventType::NpmLatest)
    } else if s == String::from_str("waweb") {
        Some(EventType::WhatsAppWebVersion)
    } else {
        None
    }
}

/// With a token configured, a request is let in only with the header
/// `Bearer <token>`; without one every request is.
pub open spec fn authorized(token: Option<Seq<char>>, header: Option<Seq<char>>) -> bool {
    match token {
        None => true,
        Some(t) => header == Some("Bearer "@ + t),
    }
}

/// Checks the `authorization` header against the configured token.
pub fn check_auth(token: &Option<String>, header: Option<&str>) -> (r: bool)
    ensures
        r == authorized(opt_text(*token), match header { Some(h) => Some(h@), None => None }),
{
    match token {
        None => true,
        Some(t) => match header {
            None => false,
            Some(h) => {
                let mut expected = String::from_str("Bearer ");
                expected.append(t.as_str());
                String::from_str(h) == expected
            },
        },
    }
}

/// A malformed query parameter.
#[derive(Clone, Copy, Debug, PartialEq, Eq, Structural)]
pub enum QueryError {
    /// `since` is not a number followed by `s`, `m`, `h` or `d`.
    InvalidSince,
    /// `type` is not `release`, `branch`, `npm` or `waweb`.
    InvalidType,
}

impl QueryError {
    /// The message returned to the client.
    pub fn message(&self) -> (r: &'static str)
        ensures
            r@ == match *self {
                QueryError::InvalidSince => "invalid since (use 24h/7d/3600s)"@,
                QueryError::InvalidType => "invalid type (release/branch/npm/waweb)"@,
            },
    {
        match self {
            QueryError::InvalidSince => "invalid since (use 24h/7d/3600s)",
            QueryError::InvalidType => "invalid type (release/branch/npm/waweb)",
        }
    }
}

/// Reads an optional `since` parameter at `now`.
fn since_param(since: Option<&str>, now: i64) -> (r: Result<Option<i64>, QueryError>)
    ensures
        match since {
            None => r == Ok::<Option<i64>, QueryError>(None),
            Some(s) => match since_epoch_at(s@, now) {
                Some(e) => r == Ok::<Option<i64>, QueryError>(Some(e)),
                None => r == Err::<Option<i64>, QueryError>(QueryError::InvalidSince),
            },
        },
{
    match since {
        None => Ok(None),
        Some(s) => match parse_since_to_epoch(s, now) {
            Some(e) => Ok(Some(e)),
            None => Err(QueryError::InvalidSince),
        },
    }
}

/// Reads an optional `type` parameter.
fn type_filter(t: Option<&str>) -> (r: Result<Option<EventType>, QueryError>)
    ensures
        match t {
            None => r == Ok::<Option<EventType>, QueryError>(None),
            Some(x) => match type_param(x@) {
                Some(e) => r == Ok::<Option<EventType>, QueryError>(Some(e)),
                None => r == Err::<Option<EventType>, QueryError>(QueryError::InvalidType),
            },
        },
{
    match t {
        None => Ok(None),
        Some(x) => match parse_type(x) {
            Some(e) => Ok(Some(e)),
            None => Err(QueryError::InvalidType),
        },
    }
}

/// The list query for the request parameters at `now`: the limit defaults
/// to 100 and is clamped to 500; a malformed `since` or `type` is rejected,
/// `since` first.
pub fn build_event_query(
    limit: Option<u32>,
    since: Option<&str>,
    label: Option<String>,
    event_type: Option<&str>,
    subject: Option<String>,
    now: i64,
) -> (r: Result<EventQuery, QueryError>)
    ensures
        since matches Some(s) && since_epoch_at(s@, now) is None ==> r == Err::<EventQuery, QueryError>(QueryError::InvalidSince),
        (since matches Some(s) ==> since_epoch_at(s@, now) is Some) && (event_type matches Some(t) && type_param(t@) is None)
            ==> r == Err::<EventQuery, QueryError>(QueryError::InvalidType),
        r matches Ok(q) ==> {
            &&& q.limit == (match limit { Some(l) => if l < MAX_LIST_LIMIT { l } else { MAX_LIST_LIMIT }, None => DEFAULT_LIST_LIMIT })
            &&& q.since_epoch == (match since { Some(s) => since_epoch_at(s@, now), None => None })
            &&& q.event_type == (match event_type { Some(t) => type_param(t@), None => None })
            &&& opt_text(q.label) == opt_text(label)
            &&& opt_text(q.subject) == opt_text(subject)
        },
        (since matches Some(s) ==> since_epoch_at(s@, now) is Some) && (event_type matches Some(t) ==> type_param(t@) is Some) ==> r is Ok,
{
    let since_epoch = match since_param(since, now) {
        Ok(e) => e,
        Err(e) => return Err(e),
    };
    let event_type = match type_filter(event_type) {
        Ok(t) => t,
        Err(e) => return Err(e),
    };
    let limit = match limit {
        Some(l) => if l < MAX_LIST_LIMIT { l } else { MAX_LIST_LIMIT },
        None => DEFAULT_LIST_LIMIT,
    };
    Ok(EventQuery { since_epoch, limit, label, event_type, subject })
}

/// How a stream connection starts: its session and how many rows to replay.
pub struct StreamPlan {
    pub session: StreamSession,
    pub replay_cap: u32,
}

/// The stream plan for the request parameters at `now`. A last-seen id
/// (`last_event_id`, when it reads as an integer) is the resume point and
/// the relative `since` is then not applied; otherwise `since` bounds the
/// replay. The replay count defaults to 20 and is clamped to 200. A
/// malformed `since` or `type` is rejected, `since` first.
pub fn build_stream_plan(
    replay: Option<u32>,
    since: Option<&str>,
    label: Option<String>,
    event_type: Option<&str>,
    subject: Option<String>,
    last_event_id: Option<&str>,
    now: i64,
) -> (r: Result<StreamPlan, QueryError>)
    ensures
        since matches Some(s) && since_epoch_at(s@, now) is None ==> r == Err::<StreamPlan, QueryError>(QueryError::InvalidSince),
        (since matches Some(s) ==> since_epoch_at(s@, now) is Some) && (event_type matches Some(t) && type_param(t@) is None)
            ==> r == Err::<StreamPlan, QueryError>(QueryError::InvalidType),
        (since matches Some(s) ==> since_epoch_at(s@, now) is Some) && (event_type matches Some(t) ==> type_param(t@) is Some) ==> r is Ok,
        r matches Ok(p) ==> {
            let after = match last_event_id {
                Some(h) => i64_text_value(h@),
                None => None,
            };
            &&& p.replay_cap == (match replay { Some(n) => if n < MAX_REPLAY { n } else { MAX_REPLAY }, None => DEFAULT_REPLAY })
            &&& p.session.after_rowid() == after
            &&& p.session.cursor() == start_cursor(after)
            &&& p.session.filter() == (FilterView {
                since_epoch: if after is Some { None } else {
                    match since { Some(s) => since_epoch_at(s@, now), None => None }
                },
                label: opt_text(label),
                event_type: match event_type { Some(t) => type_param(t@), None => None },
                subject: opt_text(subject),
            })
        },
{
    let since_epoch = match since_param(since, now) {
        Ok(e) => e,
        Err(e) => return Err(e),
    };
    let event_type = match type_filter(event_type) {
        Ok(t) => t,
        Err(e) => return Err(e),
    };
    let after_rowid = match last_event_id {
        Some(h) => parse_i64(h),
        None => None,
    };
    let since_epoch = if after_rowid.is_some() { None } else { since_epoch };
    let replay_cap = match replay {
        Some(n) => if n < MAX_REPLAY { n } else { MAX_REPLAY },
        None => DEFAULT_REPLAY,
    };
    let session = StreamSession::new(since_epoch, after_rowid, label, event_type, subject);
    Ok(StreamPlan { session, replay_cap })
}

} // verus!
