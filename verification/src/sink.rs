//! What is sent to Swarmboty, and how its answers are read.

use vstd::prelude::*;

use crate::config::Config;
use crate::json::{add_member, add_text, member, members_of, object, Json, Tree};
use crate::keyed::first_entry_is_found;
use crate::text::{joined, same};

verus! {

/// Content type of every event.
pub const JSON_UTF8: &'static str = "application/json; charset=utf-8";

/// Seconds between two health checks.
pub const HEALTH_CHECK_SECONDS: u64 = 5;

/// Seconds after which an idle connection is closed.
pub const POOL_IDLE_SECONDS: u64 = 90;

/// Idle connections that are kept per host.
pub const POOL_MAX_IDLE_PER_HOST: usize = 4;

/// Forwards events to Swarmboty.
pub struct Sink {
    pub cfg: Config,
}

/// A request to send.
pub struct Outgoing {
    pub url: String,
    pub headers: Vec<(String, String)>,
    pub body: Json,
    /// What the body is logged as, where it is logged.
    pub logged_as: Option<&'static str>,
}

/// What a health check gave.
pub enum HealthReply {
    /// An answer with this status code.
    Answer(u16),
    /// No answer.
    Failure,
}

/// The envelope `{"type": <ty>, "message": <message>}`.
pub open spec fn enveloped(ty: Seq<char>, message: Tree) -> Tree {
    Tree::Object(seq![("type"@, Tree::Text(ty)), ("message"@, message)])
}

/// What the headers of a request say.
pub open spec fn header_lines(headers: Seq<(String, String)>) -> Seq<(Seq<char>, Seq<char>)> {
    Seq::new(headers.len(), |i: int| (headers[i].0@, headers[i].1@))
}

/// The headers that every request carries: the shared secret, where there is one.
pub open spec fn token_lines(secret: Option<Seq<char>>) -> Seq<(Seq<char>, Seq<char>)> {
    match secret {
        Some(s) => seq![("X-Agent-Token"@, s)],
        None => seq![],
    }
}

/// What an event of type `ty` is logged as: nothing unless the flag for its type is set.
pub open spec fn log_label(debug_event: bool, debug_stats: bool, ty: Seq<char>) -> Option<Seq<char>> {
    if debug_event && ty == "event"@ {
        Some("Docker event"@)
    } else if debug_stats && ty == "stats"@ {
        Some("Host stats"@)
    } else {
        None
    }
}

/// Whether a health check says that Swarmboty is up.
pub open spec fn is_up(reply: HealthReply) -> bool {
    reply matches HealthReply::Answer(code) && 200 <= code < 300
}

/// Swarmboty is up where it answers with a success, and not where it answers otherwise or not at all.
pub proof fn successes_mean_up(code: u16)
    ensures
        is_up(HealthReply::Answer(code)) <==> 200 <= code <= 299,
        !is_up(HealthReply::Failure),
{
}

/// The envelope holds the type and the message, and nothing else.
pub proof fn envelope_holds_type_and_message(ty: Seq<char>, message: Tree)
    ensures
        member(Some(enveloped(ty, message)), "type"@) == Some(Tree::Text(ty)),
        member(Some(enveloped(ty, message)), "message"@) == Some(message),
        enveloped(ty, message) matches Tree::Object(members) && members.len() == 2,
{
    reveal_strlit("type");
    reveal_strlit("message");
    assert("type"@.len() == 4 && "message"@.len() == 7);
    first_entry_is_found(enveloped(ty, message)->Object_0, "type"@, 0);
    first_entry_is_found(enveloped(ty, message)->Object_0, "message"@, 1);
}

/// Requests carry the shared secret as `X-Agent-Token`, and nothing of the kind where there is none.
pub proof fn secrets_are_sent_as_tokens(secret: Option<Seq<char>>)
    ensures
        secret matches Some(s) ==> token_lines(secret).len() == 1 && token_lines(secret)[0] == ("X-Agent-Token"@, s),
        secret is None ==> token_lines(secret).len() == 0,
{
}

/// An event is logged where the flag for events is set, statistics where the flag for them is, and
/// nothing else ever.
pub proof fn flags_decide_what_is_logged(debug_event: bool, debug_stats: bool, ty: Seq<char>)
    ensures
        log_label(debug_event, debug_stats, "event"@) == if debug_event {
            Some("Docker event"@)
        } else {
            None
        },
        log_label(debug_event, debug_stats, "stats"@) == if debug_stats {
            Some("Host stats"@)
        } else {
            None
        },
        ty != "event"@ && ty != "stats"@ ==> log_label(debug_event, debug_stats, ty) is None,
{
    reveal_strlit("event");
    reveal_strlit("stats");
    assert("event"@[0] == 'e' && "stats"@[0] == 's');
}

/// The envelope around a message.
pub fn envelope(ty: &str, message: Json) -> (r: Json)
    ensures
        r@ == enveloped(ty@, message@),
{
    let mut m: Vec<(String, Json)> = Vec::new();
    add_text(&mut m, "type", ty);
    add_member(&mut m, "message", message);
    assert(members_of(m@) =~= seq![("type"@, Tree::Text(ty@)), ("message"@, message@)]);
    object(m)
}

/// The `User-Agent` of the agent.
pub fn user_agent(version: &str) -> (r: String)
    ensures
        r@ == "swarmagent/"@ + version@,
{
    joined("swarmagent/", version)
}

fn push_header(headers: &mut Vec<(String, String)>, name: &str, value: &str)
    ensures
        header_lines(final(headers)@) == header_lines(old(headers)@).push((name@, value@)),
{
    headers.push((name.to_owned(), value.to_owned()));
    assert(header_lines(headers@) =~= header_lines(old(headers)@).push((name@, value@)));
}

impl Sink {
    /// A sink with the given configuration.
    pub fn new(cfg: Config) -> (r: Sink)
        ensures
            r.cfg == cfg,
    {
        Sink { cfg }
    }

    fn push_token(&self, headers: &mut Vec<(String, String)>)
        ensures
            header_lines(final(headers)@) == header_lines(old(headers)@) + token_lines(self.cfg@.shared_secret),
    {
        if let Some(secret) = &self.cfg.shared_secret {
            push_header(headers, "X-Agent-Token", secret.as_str());
        }
        assert(header_lines(headers@) =~= header_lines(old(headers)@) + token_lines(self.cfg@.shared_secret));
    }

    /// The headers of a health check.
    pub fn health_headers(&self) -> (r: Vec<(String, String)>)
        ensures
            header_lines(r@) == token_lines(self.cfg@.shared_secret),
    {
        let mut headers: Vec<(String, String)> = Vec::new();
        self.push_token(&mut headers);
        assert(header_lines(headers@) =~= token_lines(self.cfg@.shared_secret));
        headers
    }

    /// Whether a health check says that Swarmboty is up: its endpoint answered with a success.
    ///
    /// The check is repeated every [`HEALTH_CHECK_SECONDS`] until it does, before anything is
    /// sent, so that initial events are not lost.
    pub fn wait_for_health(&self, reply: &HealthReply) -> (r: bool)
        ensures
            r == is_up(*reply),
    {
        match reply {
            HealthReply::Answer(code) => 200 <= *code && *code < 300,
            HealthReply::Failure => false,
        }
    }

    /// The request that posts a message, in the standard event envelope, to the configured
    /// `event_endpoint`.
    pub fn post_event(&self, ty: &str, message: Json) -> (r: Outgoing)
        ensures
            r.url@ == self.cfg@.event_endpoint,
            r.body@ == enveloped(ty@, message@),
            header_lines(r.headers@) == seq![("content-type"@, JSON_UTF8@)] + token_lines(
                self.cfg@.shared_secret,
            ),
            (match r.logged_as {
                Some(label) => Some(label@),
                None => None,
            }) == log_label(self.cfg@.debug_event, self.cfg@.debug_stats, ty@),
    {
        let mut headers: Vec<(String, String)> = Vec::new();
        push_header(&mut headers, "content-type", JSON_UTF8);
        assert(header_lines(headers@) =~= seq![("content-type"@, JSON_UTF8@)]);
        self.push_token(&mut headers);
        let logged_as: Option<&'static str> = if self.cfg.debug_event && same(ty, "event") {
            Some("Docker event")
        } else if self.cfg.debug_stats && same(ty, "stats") {
            Some("Host stats")
        } else {
            None
        };
        Outgoing {
            url: self.cfg.event_endpoint.as_str().to_owned(),
            headers,
            body: envelope(ty, message),
            logged_as,
        }
    }
}

} // verus!
