//! The pod watch: a stream of bytes, cut into lines of JSON.

use vstd::prelude::*;

use crate::json::{get, json_document, member, parse, text_of, text_or_empty, Json, Tree};
use crate::keyed::find;
use crate::provider::kubernetes::events::{
    additions_are_modifications, all_marked, applied, becoming_running_is_reported, diff_watch_event, has_identity,
    is_death_event, is_first_of_name, is_plain_event, lifecycles, pod_prefix, started_at, status_name, statuses_of,
    terminating_is_reported, AgentEvent, TrackedContainer, WatchState, Watched,
};

verus! {

/// What ends a line.
pub const NEWLINE: u8 = 10;

/// Position of the first line end in `s`, its length where there is none.
pub open spec fn line_length(s: Seq<u8>) -> nat
    decreases s.len(),
{
    if s.len() == 0 || s[0] == NEWLINE {
        0
    } else {
        1 + line_length(s.drop_first())
    }
}

/// The complete lines in `s`, without their line ends.
pub open spec fn lines(s: Seq<u8>) -> Seq<Seq<u8>>
    decreases s.len(),
{
    let n = line_length(s) as int;
    if n < s.len() {
        seq![s.take(n)] + lines(s.skip(n + 1))
    } else {
        seq![]
    }
}

/// What follows the last line end in `s`.
pub open spec fn remainder(s: Seq<u8>) -> Seq<u8>
    decreases s.len(),
{
    let n = line_length(s) as int;
    if n < s.len() {
        remainder(s.skip(n + 1))
    } else {
        s
    }
}

proof fn lemma_line_length(s: Seq<u8>)
    ensures
        line_length(s) <= s.len(),
        line_length(s) < s.len() ==> s[line_length(s) as int] == NEWLINE,
        forall|i: int| 0 <= i < line_length(s) ==> #[trigger] s[i] != NEWLINE,
    decreases s.len(),
{
    if s.len() > 0 && s[0] != NEWLINE {
        let t = s.drop_first();
        lemma_line_length(t);
        assert forall|i: int| 0 <= i < line_length(s) implies #[trigger] s[i] != NEWLINE by {
            if i > 0 {
                assert(s[i] == t[i - 1]);
            }
        }
    }
}

proof fn lemma_line_length_is(s: Seq<u8>, n: int)
    requires
        0 <= n <= s.len(),
        forall|i: int| 0 <= i < n ==> #[trigger] s[i] != NEWLINE,
        n < s.len() ==> s[n] == NEWLINE,
    ensures
        line_length(s) == n,
{
    lemma_line_length(s);
    let m = line_length(s) as int;
    if m < n {
        assert(s[m] == NEWLINE);
    } else if n < m {
        assert(s[n] == NEWLINE);
    }
}

// ── Laws ─────────────────────────────────────────────────────────────────────

/// How the stream is cut into chunks does not matter: the lines of one chunk, then those of what
/// it left over with the next, are the lines of both.
pub proof fn chunks_do_not_matter(a: Seq<u8>, b: Seq<u8>)
    ensures
        lines(a + b) == lines(a) + lines(remainder(a) + b),
        remainder(a + b) == remainder(remainder(a) + b),
    decreases a.len(),
{
    lemma_line_length(a);
    lemma_line_length(a + b);
    let n = line_length(a) as int;
    if n < a.len() {
        assert forall|i: int| 0 <= i < n implies #[trigger] (a + b)[i] != NEWLINE by {
            assert((a + b)[i] == a[i]);
        }
        lemma_line_length_is(a + b, n);
        let rest = a.skip(n + 1);
        assert((a + b).take(n) =~= a.take(n));
        assert((a + b).skip(n + 1) =~= rest + b);
        chunks_do_not_matter(rest, b);
        assert(seq![a.take(n)] + (lines(rest) + lines(remainder(rest) + b)) =~= (seq![a.take(n)] + lines(rest))
            + lines(remainder(rest) + b));
    } else {
        assert(lines(a) + lines(a + b) =~= lines(a + b));
    }
}

/// The lines as they were, each with its line end.
pub open spec fn ended(lines: Seq<Seq<u8>>) -> Seq<u8>
    decreases lines.len(),
{
    if lines.len() == 0 {
        seq![]
    } else {
        lines[0].push(NEWLINE) + ended(lines.drop_first())
    }
}

/// Whether no byte of `s` ends a line.
pub open spec fn is_unbroken(s: Seq<u8>) -> bool {
    forall|i: int| 0 <= i < s.len() ==> #[trigger] s[i] != 10
}

/// Nothing is lost: the lines with their line ends and what is left over make up the stream, and
/// no line end is in a line or left over.
pub proof fn nothing_is_lost(s: Seq<u8>)
    ensures
        ended(lines(s)) + remainder(s) == s,
        forall|i: int| 0 <= i < remainder(s).len() ==> #[trigger] remainder(s)[i] != NEWLINE,
        is_unbroken(remainder(s)),
        forall|i: int| 0 <= i < lines(s).len() ==> is_unbroken(#[trigger] lines(s)[i]),
    decreases s.len(),
{
    lemma_line_length(s);
    let n = line_length(s) as int;
    if n < s.len() {
        let rest = s.skip(n + 1);
        nothing_is_lost(rest);
        assert(lines(s)[0] == s.take(n));
        assert(lines(s).drop_first() =~= lines(rest));
        assert forall|i: int| 0 <= i < lines(s).len() implies is_unbroken(#[trigger] lines(s)[i]) by {
            if i > 0 {
                assert(lines(s)[i] == lines(rest)[i - 1]);
            } else {
                assert forall|j: int| 0 <= j < s.take(n).len() implies #[trigger] s.take(n)[j] != 10 by {
                    assert(s[j] != NEWLINE);
                }
            }
        }
        assert(s.take(n).push(NEWLINE) + (ended(lines(rest)) + remainder(rest)) =~= s) by {
            assert(ended(lines(rest)) + remainder(rest) == rest);
        }
        assert(ended(lines(s)) + remainder(s) =~= s.take(n).push(NEWLINE) + (ended(lines(rest)) + remainder(
            rest,
        )));
    } else {
        assert(ended(lines(s)) + remainder(s) =~= s);
    }
}

// ── The buffer ───────────────────────────────────────────────────────────────

/// Bytes of the stream that have not been handed out as a line yet.
pub struct LineBuffer {
    bytes: Vec<u8>,
}

impl View for LineBuffer {
    type V = Seq<u8>;

    closed spec fn view(&self) -> Seq<u8> {
        self.bytes@
    }
}

impl LineBuffer {
    /// An empty buffer.
    pub fn new() -> (r: LineBuffer)
        ensures
            r@ == Seq::<u8>::empty(),
    {
        LineBuffer { bytes: Vec::new() }
    }

    /// Adds a chunk of the stream.
    pub fn extend(&mut self, chunk: &[u8])
        ensures
            final(self)@ == old(self)@ + chunk@,
    {
        let mut i: usize = 0;
        let ghost before = self@;
        assert(before + chunk@.take(0) =~= before);
        while i < chunk.len()
            invariant
                i <= chunk.len(),
                self@ == before + chunk@.take(i as int),
            decreases chunk.len() - i,
        {
            self.bytes.push(chunk[i]);
            i = i + 1;
            assert(self@ =~= before + chunk@.take(i as int));
        }
        assert(chunk@.take(chunk@.len() as int) =~= chunk@);
    }

    /// Takes out the next complete line, without its line end.
    pub fn next_line(&mut self) -> (r: Option<Vec<u8>>)
        ensures
            match r {
                Some(line) => lines(old(self)@) == seq![line@] + lines(final(self)@) && remainder(old(self)@)
                    == remainder(final(self)@) && final(self)@.len() < old(self)@.len(),
                None => lines(old(self)@) == Seq::<Seq<u8>>::empty() && final(self)@ == old(self)@
                    && remainder(old(self)@) == old(self)@,
            },
    {
        let ghost before = self@;
        let mut n: usize = 0;
        while n < self.bytes.len() && self.bytes[n] != NEWLINE
            invariant
                n <= self.bytes.len(),
                self@ == before,
                forall|i: int| 0 <= i < n ==> #[trigger] before[i] != NEWLINE,
            decreases self.bytes.len() - n,
        {
            n = n + 1;
        }
        proof {
            lemma_line_length_is(before, n as int);
        }
        if n == self.bytes.len() {
            return None;
        }
        let mut line: Vec<u8> = Vec::new();
        let mut rest: Vec<u8> = Vec::new();
        let mut i: usize = 0;
        while i < self.bytes.len()
            invariant
                n < self.bytes.len(),
                i <= self.bytes.len(),
                self@ == before,
                line@ == before.take(if i < n {
                    i as int
                } else {
                    n as int
                }),
                rest@ == if i <= n {
                    Seq::<u8>::empty()
                } else {
                    before.subrange(n + 1, i as int)
                },
            decreases self.bytes.len() - i,
        {
            if i < n {
                line.push(self.bytes[i]);
                assert(line@ =~= before.take(i + 1));
            } else if i > n {
                rest.push(self.bytes[i]);
                assert(rest@ =~= before.subrange(n + 1, i + 1));
            } else {
                assert(before.subrange(n + 1, n + 1) =~= Seq::<u8>::empty());
            }
            i = i + 1;
        }
        self.bytes = rest;
        assert(self@ =~= before.skip(n + 1));
        Some(line)
    }
}

// ── Lines ────────────────────────────────────────────────────────────────────

/// ASCII white space.
pub open spec fn is_blank_byte(b: u8) -> bool {
    b == 9 || b == 10 || b == 12 || b == 13 || b == 32
}

/// Whether a line holds nothing but ASCII white space.
pub open spec fn is_blank(line: Seq<u8>) -> bool {
    forall|i: int| 0 <= i < line.len() ==> is_blank_byte(#[trigger] line[i])
}

fn blank(line: &Vec<u8>) -> (r: bool)
    ensures
        r == is_blank(line@),
{
    let mut i: usize = 0;
    while i < line.len()
        invariant
            i <= line.len(),
            forall|j: int| 0 <= j < i ==> is_blank_byte(#[trigger] line@[j]),
        decreases line.len() - i,
    {
        let b: u8 = line[i];
        if !(b == 9 || b == 10 || b == 12 || b == 13 || b == 32) {
            assert(!is_blank_byte(line@[i as int]));
            return false;
        }
        i = i + 1;
    }
    true
}

/// What came of a line of the watch.
pub enum LineOutcome {
    /// Nothing but white space.
    Blank,
    /// No JSON document.
    Unparseable,
    /// The events to forward.
    Events(Vec<AgentEvent>),
}

/// What a document of the watch, `{"type": "...", "object": <Pod>}`, does to the tracked
/// containers. A document without an object does nothing.
pub open spec fn document_applied(state: Seq<(Seq<char>, TrackedContainer)>, document: Tree, now: int) -> Watched {
    match member(Some(document), "object"@) {
        Some(object) => applied(state, text_of(member(Some(document), "type"@)), object, now),
        None => Watched { state, events: seq![] },
    }
}

/// A line is blank where each of its bytes is a tab, a line end, a form feed, a carriage return or a
/// space; one other byte makes it a document.
pub proof fn blank_lines_hold_white_space_alone(line: Seq<u8>, i: int)
    requires
        0 <= i < line.len(),
    ensures
        is_blank(line) ==> line[i] == 9 || line[i] == 10 || line[i] == 12 || line[i] == 13 || line[i] == 32,
        is_blank(line.take(i)) && is_blank(line.skip(i + 1)) && (line[i] == 9 || line[i] == 10 || line[i] == 12
            || line[i] == 13 || line[i] == 32) ==> is_blank(line),
        is_blank(Seq::<u8>::empty()),
{
    if is_blank(line) {
        assert(is_blank_byte(line[i]));
    }
    if is_blank(line.take(i)) && is_blank(line.skip(i + 1)) && is_blank_byte(line[i]) {
        assert forall|j: int| 0 <= j < line.len() implies is_blank_byte(#[trigger] line[j]) by {
            if j < i {
                assert(line.take(i)[j] == line[j]);
            } else if j > i {
                assert(line.skip(i + 1)[j - i - 1] == line[j]);
            }
        }
    }
}

/// A document does what its object and its type ask for, whatever the type; one without an object
/// does nothing.
pub proof fn documents_are_watch_events(
    state: Seq<(Seq<char>, TrackedContainer)>,
    document: Tree,
    pod: Tree,
    event_type: Seq<char>,
    now: int,
)
    ensures
        member(Some(document), "object"@) == Some(pod) && member(Some(document), "type"@) == Some(
            Tree::Text(event_type),
        ) ==> document_applied(state, document, now) == applied(state, event_type, pod, now),
        member(Some(document), "object"@) is None ==> document_applied(state, document, now) == (Watched {
            state,
            events: seq![],
        }),
{
}

/// Two documents with one object have one effect, unless the type of just one says that the object
/// is deleted.
pub proof fn types_but_deletion_do_not_matter(
    state: Seq<(Seq<char>, TrackedContainer)>,
    one: Tree,
    other: Tree,
    now: int,
)
    requires
        member(Some(one), "object"@) == member(Some(other), "object"@),
        (member(Some(one), "type"@) == Some(Tree::Text("DELETED"@))) == (member(Some(other), "type"@) == Some(
            Tree::Text("DELETED"@),
        )),
    ensures
        document_applied(state, one, now) == document_applied(state, other, now),
{
    reveal_strlit("DELETED");
    assert("DELETED"@.len() == 7);
    if member(Some(one), "object"@) is Some && member(Some(one), "type"@) != Some(Tree::Text("DELETED"@)) {
        additions_are_modifications(
            state,
            text_of(member(Some(one), "type"@)),
            text_of(member(Some(other), "type"@)),
            member(Some(one), "object"@)->0,
            now,
        );
    }
}

/// A document that is no deletion and shows a container terminated that was tracked as running
/// emits its `die`, and one that shows it running that was not emits its `start`. Entry `i` is the
/// first of its name.
pub proof fn documents_report_transitions(
    state: Seq<(Seq<char>, TrackedContainer)>,
    document: Tree,
    pod: Tree,
    now: int,
    i: int,
) -> (at: int)
    requires
        member(Some(document), "object"@) == Some(pod),
        member(Some(document), "type"@) != Some(Tree::Text("DELETED"@)),
        has_identity(pod),
        is_first_of_name(statuses_of(pod), i),
        ({
            let ran = find(state, pod_prefix(pod) + status_name(statuses_of(pod)[i])) matches Some(p) && p.running;
            let shows = member(Some(statuses_of(pod)[i]), "state"@);
            if ran {
                member(shows, "terminated"@) is Some
            } else {
                member(shows, "running"@) is Some
            }
        }),
    ensures
        ({
            let name = status_name(statuses_of(pod)[i]);
            let ran = find(state, pod_prefix(pod) + name) matches Some(p) && p.running;
            let shows = member(Some(statuses_of(pod)[i]), "state"@);
            let events = document_applied(state, document, now).events;
            &&& 0 <= at < events.len()
            &&& if ran {
                is_death_event(events[at], "die"@, pod, name, member(shows, "terminated"@), now)
            } else {
                is_plain_event(events[at], "start"@, pod, name, started_at(statuses_of(pod)[i], now))
            }
        }),
{
    reveal_strlit("DELETED");
    assert("DELETED"@.len() == 7);
    let event_type = text_of(member(Some(document), "type"@));
    if find(state, pod_prefix(pod) + status_name(statuses_of(pod)[i])) matches Some(p) && p.running {
        terminating_is_reported(state, event_type, pod, now, i)
    } else {
        becoming_running_is_reported(state, event_type, pod, now, i)
    }
}

/// Applies a document of the watch to the tracked containers; returns the events to forward.
pub fn apply_document(state: &mut WatchState, document: &Json, now: i64) -> (r: Vec<AgentEvent>)
    ensures
        all_marked(r@),
        (Watched { state: final(state)@, events: lifecycles(r@) }) == document_applied(
            old(state)@,
            document@,
            now as int,
        ),
{
    match get(Some(document), "object") {
        Some(object) => {
            let event_type: &str = text_or_empty(get(Some(document), "type"));
            diff_watch_event(state, event_type, object, now)
        },
        None => {
            let r: Vec<AgentEvent> = Vec::new();
            assert(lifecycles(r@) =~= seq![]);
            r
        },
    }
}

/// Applies a line of the watch to the tracked containers. `now` is the time, in unix seconds, for
/// events that carry none.
pub fn apply_line(state: &mut WatchState, line: &Vec<u8>, now: i64) -> (r: LineOutcome)
    ensures
        match r {
            LineOutcome::Blank => is_blank(line@) && final(state)@ == old(state)@,
            LineOutcome::Unparseable => !is_blank(line@) && json_document(line@) is None && final(state)@ == old(
                state,
            )@,
            LineOutcome::Events(events) => {
                &&& !is_blank(line@)
                &&& all_marked(events@)
                &&& json_document(line@) matches Some(document)
                &&& (Watched { state: final(state)@, events: lifecycles(events@) }) == document_applied(
                    old(state)@,
                    document,
                    now as int,
                )
            },
        },
{
    if blank(line) {
        return LineOutcome::Blank;
    }
    match parse(line.as_slice()) {
        Some(document) => LineOutcome::Events(apply_document(state, &document, now)),
        None => LineOutcome::Unparseable,
    }
}

} // verus!
