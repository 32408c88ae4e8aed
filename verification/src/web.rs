//! Container logs: what is asked for, and how much of it is taken.

use vstd::prelude::*;
use vstd::utf8::{decode_utf8, valid_utf8};

use crate::clock::{instant_of, parse_ts, rfc3339_instant, Timestamp};
use crate::text::{
    all_white, bare_text_is_trimmed, chars_of, decimal_text, decimal_text_is_read_back, is_digit, is_white, joined,
    numbers_are_read, parse_signed, show_unsigned, signed_value, surrounding_white_space_is_trimmed, trim, trimmed,
    trimming_again_changes_nothing, white_space_is_trimmed_away,
};

verus! {

/// Query of a request for logs.
#[derive(Debug, Default)]
pub struct LogsQuery {
    /// Unix seconds or RFC 3339.
    pub since: Option<String>,
}

/// Why there are no logs.
pub enum LogsError {
    /// The request makes no sense, or the daemon refused it.
    BadRequest(String),
    /// There is more than may be sent.
    TooLarge(String),
}

impl LogsError {
    /// What the error says.
    pub open spec fn says(self) -> Seq<char> {
        match self {
            LogsError::BadRequest(text) => text@,
            LogsError::TooLarge(text) => text@,
        }
    }

    /// HTTP status code of the error.
    pub fn code(&self) -> (r: u16)
        ensures
            r == match *self {
                LogsError::BadRequest(_) => 400u16,
                LogsError::TooLarge(_) => 413u16,
            },
    {
        match self {
            LogsError::BadRequest(_) => 400,
            LogsError::TooLarge(_) => 413,
        }
    }
}

/// The unix seconds that a query asks for, by what its text can be read as: the number before the
/// point in time.
pub open spec fn since_read_as(number: Option<int>, instant: Option<Timestamp>) -> Option<int> {
    match number {
        Some(v) => Some(v),
        None => match instant {
            Some(t) => Some(t.seconds as int),
            None => None,
        },
    }
}

/// The unix seconds that a query asks for: zero where it asks for none; the number, or the RFC 3339
/// time, that it writes.
pub open spec fn since_of(raw: Option<Seq<char>>) -> Option<int> {
    match raw {
        Some(s) => if trimmed(s).len() == 0 {
            Some(0)
        } else {
            since_read_as(signed_value(trimmed(s)), instant_of(trimmed(s)))
        },
        None => Some(0),
    }
}

/// A query that asks for nothing, or for white space, asks for everything; one that writes a number
/// asks for that many unix seconds; one that writes a point in time asks for its seconds; anything
/// else makes no sense. White space around does not matter.
pub proof fn queries_ask_for_numbers_or_times(
    lead: Seq<char>,
    text: Seq<char>,
    tail: Seq<char>,
    n: nat,
)
    requires
        all_white(lead),
        all_white(tail),
    ensures
        since_of(None) == Some(0int),
        since_of(Some(lead)) == Some(0int),
        n <= i64::MAX ==> since_of(Some(lead + decimal_text(n) + tail)) == Some(n as int),
        text.len() > 0 && !is_white(text[0]) && !is_white(text.last()) && signed_value(text) is None
            && rfc3339_instant(text) is None ==> since_of(Some(lead + text + tail)) is None,
        text.len() > 0 && !is_white(text[0]) && !is_white(text.last()) && signed_value(text) is None ==> (
        rfc3339_instant(text) matches Some((seconds, _)) ==> since_of(Some(lead + text + tail)) == Some(
            seconds as int,
        )),
{
    white_space_is_trimmed_away(lead);
    surrounding_white_space_is_trimmed(lead, text, tail);
    surrounding_white_space_is_trimmed(lead, decimal_text(n), tail);
    decimal_text_is_read_back(n);
    numbers_are_read(n, n, text, 0);
    let digits = decimal_text(n);
    assert(is_digit(digits[0]));
    assert(is_digit(digits[digits.len() - 1]));
    bare_text_is_trimmed(digits);
    if text.len() > 0 && !is_white(text[0]) && !is_white(text.last()) {
        bare_text_is_trimmed(text);
    }
}

/// The unix seconds that a query asks for, by what its text was read as.
pub fn choose_since(number: Option<i64>, instant: Option<Timestamp>) -> (r: Result<i64, LogsError>)
    ensures
        ({
            let since = since_read_as(
                match number {
                    Some(v) => Some(v as int),
                    None => None,
                },
                instant,
            );
            match r {
                Ok(v) => since == Some(v as int),
                Err(e) => since is None && e is BadRequest && e.says()
                    == "invalid since (use unix seconds or RFC3339)"@,
            }
        }),
{
    match (number, instant) {
        (Some(v), _) => Ok(v),
        (None, Some(t)) => Ok(t.seconds),
        (None, None) => Err(
            LogsError::BadRequest("invalid since (use unix seconds or RFC3339)".to_owned()),
        ),
    }
}

/// The unix seconds that a query asks for.
pub fn parse_since_unix(raw: &Option<String>) -> (r: Result<i64, LogsError>)
    ensures
        match r {
            Ok(v) => since_of(chars_of(*raw)) == Some(v as int),
            Err(e) => since_of(chars_of(*raw)) is None && e is BadRequest && e.says()
                == "invalid since (use unix seconds or RFC3339)"@,
        },
{
    match raw {
        Some(text) => {
            let s: &str = trim(text.as_str());
            proof {
                trimming_again_changes_nothing(text@);
            }
            if s.unicode_len() == 0 {
                return Ok(0);
            }
            choose_since(parse_signed(s), parse_ts(s))
        },
        None => Ok(0),
    }
}

/// What is asked of the daemon.
#[derive(Debug)]
pub struct LogsOptions {
    pub follow: bool,
    pub stdout: bool,
    pub stderr: bool,
    pub since: i64,
    pub until: i64,
    pub timestamps: bool,
    pub tail: &'static str,
}

/// The options for a query: everything on both streams since then, with timestamps.
pub fn logs_options(query: &LogsQuery) -> (r: Result<LogsOptions, LogsError>)
    ensures
        match r {
            Ok(o) => since_of(chars_of(query.since)) == Some(o.since as int) && !o.follow && o.stdout && o.stderr
                && o.until == 0 && o.timestamps && o.tail@ == "all"@,
            Err(e) => since_of(chars_of(query.since)) is None && e is BadRequest && e.says()
                == "invalid since (use unix seconds or RFC3339)"@,
        },
{
    match parse_since_unix(&query.since) {
        Ok(since) => Ok(
            LogsOptions {
                follow: false,
                stdout: true,
                stderr: true,
                since,
                until: 0,
                timestamps: true,
                tail: "all",
            },
        ),
        Err(e) => Err(e),
    }
}

/// The error for a daemon that refused the request.
pub fn unobtainable(reason: &str) -> (r: LogsError)
    ensures
        r is BadRequest,
        r.says() == "Cannot obtain container logs: "@ + reason@,
{
    LogsError::BadRequest(joined("Cannot obtain container logs: ", reason))
}

/// What `String::from_utf8_lossy` makes of bytes.
pub uninterp spec fn lossy_text(bytes: Seq<u8>) -> Seq<char>;

/// Calls `String::from_utf8_lossy`. The contract gives the outcome a name, and states it for bytes
/// that are UTF-8: the text that they encode. What stands in for other bytes is left to std.
#[verifier::external_body]
fn decode_lossy(bytes: &Vec<u8>) -> (r: String)
    ensures
        r@ == lossy_text(bytes@),
        valid_utf8(bytes@) ==> r@ == decode_utf8(bytes@),
{
    String::from_utf8_lossy(bytes.as_slice()).into_owned()
}

/// The logs so far, never more than a limit.
pub struct LogBuffer {
    bytes: Vec<u8>,
    limit: usize,
}

impl LogBuffer {
    /// The bytes so far.
    pub closed spec fn content(&self) -> Seq<u8> {
        self.bytes@
    }

    /// The most bytes that are taken.
    pub closed spec fn most(&self) -> nat {
        self.limit as nat
    }

    /// Whether the limit is kept.
    pub open spec fn well_formed(&self) -> bool {
        self.content().len() <= self.most() <= usize::MAX
    }

    /// An empty buffer for at most `limit` bytes.
    pub fn new(limit: usize) -> (r: LogBuffer)
        ensures
            r.well_formed(),
            r.content() == Seq::<u8>::empty(),
            r.most() == limit,
    {
        LogBuffer { bytes: Vec::new(), limit }
    }

    /// Adds a chunk, or refuses it where it would exceed the limit.
    pub fn append(&mut self, chunk: &[u8]) -> (r: Result<(), LogsError>)
        requires
            old(self).well_formed(),
        ensures
            final(self).well_formed(),
            final(self).most() == old(self).most(),
            match r {
                Ok(_) => old(self).content().len() + chunk@.len() <= old(self).most() && final(self).content()
                    == old(self).content() + chunk@,
                Err(e) => old(self).content().len() + chunk@.len() > old(self).most() && final(self).content()
                    == old(self).content() && e is TooLarge && e.says() == "Log response exceeds LOGS_MAX_BYTES ("@
                    + decimal_text(old(self).most()) + ")"@,
            },
    {
        if chunk.len() > self.limit - self.bytes.len() {
            let mut text: String = joined(
                "Log response exceeds LOGS_MAX_BYTES (",
                show_unsigned(self.limit as u64).as_str(),
            );
            text.append(")");
            return Err(LogsError::TooLarge(text));
        }
        let ghost before = self.bytes@;
        let mut i: usize = 0;
        assert(before + chunk@.take(0) =~= before);
        while i < chunk.len()
            invariant
                i <= chunk.len(),
                self.limit == old(self).limit,
                self.bytes@ == before + chunk@.take(i as int),
            decreases chunk.len() - i,
        {
            self.bytes.push(chunk[i]);
            i = i + 1;
            assert(self.bytes@ =~= before + chunk@.take(i as int));
        }
        assert(chunk@.take(chunk@.len() as int) =~= chunk@);
        Ok(())
    }

    /// The logs as text.
    pub fn text(&self) -> (r: String)
        ensures
            r@ == lossy_text(self.content()),
            valid_utf8(self.content()) ==> r@ == decode_utf8(self.content()),
    {
        decode_lossy(&self.bytes)
    }
}

} // verus!
