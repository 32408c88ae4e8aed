//! Kubernetes event source: a pod watch scoped to this node.
//!
//! The cluster-wide event feed cannot be filtered by node. The agent instead watches the pods
//! scheduled on its own node and derives container lifecycle events from
//! `status.containerStatuses` transitions:
//!
//! | Transition | Emitted action |
//! |---|---|
//! | container becomes running | `start` |
//! | running → terminated | `die` (after `oom` when `reason == OOMKilled`) |
//! | `restartCount` of a running container increases | `die` + `start`, whatever it does now |
//! | pod deleted | `destroy` per tracked container |

use vstd::prelude::*;

use crate::clock::{rfc3339_instant, seconds_or, ts_or};
use crate::json::{
    add_member, add_text, as_integer, as_items, as_text, get, integer_of, items_of, member, members_of, node_of, object, text_of,
    text_or_empty, Json, Tree,
};
use crate::keyed::{
    distinct, find, find_is_membership, first_entry_is_found, kept, kept_keeps_distinct, kept_of_parts, kept_then_find,
    kept_then_matching, lemma_put_skip, matching, matching_is_membership, matching_keys_are_distinct, put, put_again,
    put_keeps_distinct, put_then_find, put_then_viewed, viewed, StringMap,
};
use crate::text::{after_last, begins_with, joined, same, show_signed, signed_text, tail_after, tail_follows_the_last};

verus! {

/// Container lifecycle event, in the shape of a Docker event.
pub struct AgentEvent {
    /// Always `"container"`.
    pub typ: &'static str,
    /// `start`, `die`, `oom`, or `destroy`.
    pub action: &'static str,
    /// Always `"kubernetes"`.
    pub orchestrator: &'static str,
    /// Event subject.
    pub actor: Actor,
    /// Unix timestamp in seconds.
    pub time: i64,
}

/// Subject of an [`AgentEvent`].
pub struct Actor {
    /// `"{namespace}/{pod}/{container}"`, as in the statistics.
    pub id: String,
    /// `name`, `namespace`, `pod`, and of a terminated container `exitCode` and `reason`.
    pub attributes: StringMap<String>,
}

/// Last observed state of one container, keyed by its statistics id.
#[derive(Debug, Clone, Copy, PartialEq, Eq, Structural)]
pub struct TrackedContainer {
    pub running: bool,
    pub restart_count: i64,
}

impl Default for TrackedContainer {
    fn default() -> (r: TrackedContainer)
        ensures
            r == (TrackedContainer { running: false, restart_count: 0 }),
    {
        TrackedContainer { running: false, restart_count: 0 }
    }
}

/// Watch-level container state, kept across watch reconnects.
pub type WatchState = StringMap<TrackedContainer>;

// ── What a watch event means ─────────────────────────────────────────────────

/// What an [`AgentEvent`] says.
pub struct Lifecycle {
    pub action: Seq<char>,
    pub id: Seq<char>,
    pub attributes: Seq<(Seq<char>, Seq<char>)>,
    pub time: int,
}

impl View for AgentEvent {
    type V = Lifecycle;

    open spec fn view(&self) -> Lifecycle {
        Lifecycle {
            action: self.action@,
            id: self.actor.id@,
            attributes: viewed(self.actor.attributes@),
            time: self.time as int,
        }
    }
}

/// What a list of events says.
pub open spec fn lifecycles(events: Seq<AgentEvent>) -> Seq<Lifecycle> {
    Seq::new(events.len(), |i: int| events[i]@)
}

/// Whether every event carries the two fixed markers.
pub open spec fn all_marked(events: Seq<AgentEvent>) -> bool {
    forall|i: int| 0 <= i < events.len() ==> marked(#[trigger] events[i])
}

/// Whether an event carries the two fixed markers.
pub open spec fn marked(e: AgentEvent) -> bool {
    e.typ@ == "container"@ && e.orchestrator@ == "kubernetes"@
}

/// Where the ids of a pod's containers begin: `"{namespace}/{pod}/"`.
pub open spec fn id_prefix(namespace: Seq<char>, pod: Seq<char>) -> Seq<char> {
    namespace + "/"@ + pod + "/"@
}

/// The attributes that every event carries.
pub open spec fn base_entries(namespace: Seq<char>, pod: Seq<char>, container: Seq<char>) -> Seq<
    (Seq<char>, Seq<char>),
> {
    seq![("name"@, container), ("namespace"@, namespace), ("pod"@, pod)]
}

/// The attributes of a death: besides the usual ones the exit code and the reason, where the
/// terminated state gives them.
pub open spec fn death_entries(
    namespace: Seq<char>,
    pod: Seq<char>,
    container: Seq<char>,
    terminated: Option<Tree>,
) -> Seq<(Seq<char>, Seq<char>)> {
    let base = base_entries(namespace, pod, container);
    let coded = match integer_of(member(terminated, "exitCode"@)) {
        Some(code) => base.push(("exitCode"@, signed_text(code))),
        None => base,
    };
    let reason = text_of(member(terminated, "reason"@));
    if reason.len() > 0 {
        coded.push(("reason"@, reason))
    } else {
        coded
    }
}

/// The text that `node` is.
pub open spec fn string_of(node: Option<Tree>) -> Option<Seq<char>> {
    match node {
        Some(Tree::Text(s)) => Some(s),
        _ => None,
    }
}

/// What one entry of `containerStatuses` says of the container.
pub open spec fn tracked_of(status: Tree) -> TrackedContainer {
    TrackedContainer {
        running: member(member(Some(status), "state"@), "running"@) is Some,
        restart_count: match integer_of(member(Some(status), "restartCount"@)) {
            Some(n) => n as i64,
            None => 0,
        },
    }
}

/// Whether the container was running when it was last seen.
pub open spec fn was_running(prev: Option<TrackedContainer>) -> bool {
    prev matches Some(p) && p.running
}

/// Whether the restart counter went up since the container was last seen.
pub open spec fn restarted(prev: Option<TrackedContainer>, status: Tree) -> bool {
    prev matches Some(p) && tracked_of(status).restart_count > p.restart_count
}

/// The deaths that one entry of `containerStatuses` shows, after `prev`: those of a container
/// that is terminated now and was running or has restarted.
pub open spec fn deaths(
    namespace: Seq<char>,
    pod: Seq<char>,
    status: Tree,
    prev: Option<TrackedContainer>,
    now: int,
) -> Seq<Lifecycle> {
    let container = text_of(member(Some(status), "name"@));
    let terminated = member(member(Some(status), "state"@), "terminated"@);
    if terminated is Some && (was_running(prev) || restarted(prev, status)) {
        let die = Lifecycle {
            action: "die"@,
            id: id_prefix(namespace, pod) + container,
            attributes: death_entries(namespace, pod, container, terminated),
            time: seconds_or(now, string_of(member(terminated, "finishedAt"@))),
        };
        if text_of(member(terminated, "reason"@)) == "OOMKilled"@ {
            seq![Lifecycle { action: "oom"@, ..die }, die]
        } else {
            seq![die]
        }
    } else {
        seq![]
    }
}

/// The event that a container, one entry of `containerStatuses`, started.
pub open spec fn start_of(namespace: Seq<char>, pod: Seq<char>, status: Tree, now: int) -> Lifecycle {
    let container = text_of(member(Some(status), "name"@));
    let running = member(member(Some(status), "state"@), "running"@);
    Lifecycle {
        action: "start"@,
        id: id_prefix(namespace, pod) + container,
        attributes: base_entries(namespace, pod, container),
        time: seconds_or(now, string_of(member(running, "startedAt"@))),
    }
}

/// The restart that one entry of `containerStatuses` shows, after `prev`: the death that went
/// unseen and the start behind it, of a container that ran and has restarted, whatever it does
/// now.
pub open spec fn restarts(
    namespace: Seq<char>,
    pod: Seq<char>,
    status: Tree,
    prev: Option<TrackedContainer>,
    now: int,
) -> Seq<Lifecycle> {
    if was_running(prev) && restarted(prev, status) {
        let start = start_of(namespace, pod, status, now);
        seq![Lifecycle { action: "die"@, time: now, ..start }, start]
    } else {
        seq![]
    }
}

/// The start that one entry of `containerStatuses` shows, after `prev`: that of a container that
/// runs now and did not run before.
pub open spec fn starts(
    namespace: Seq<char>,
    pod: Seq<char>,
    status: Tree,
    prev: Option<TrackedContainer>,
    now: int,
) -> Seq<Lifecycle> {
    if tracked_of(status).running && !was_running(prev) {
        seq![start_of(namespace, pod, status, now)]
    } else {
        seq![]
    }
}

/// All that one entry of `containerStatuses` shows, after `prev`. A container that runs now ends
/// with its start; one that does not ends with its death.
pub open spec fn shown(
    namespace: Seq<char>,
    pod: Seq<char>,
    status: Tree,
    prev: Option<TrackedContainer>,
    now: int,
) -> Seq<Lifecycle> {
    let restart = restarts(namespace, pod, status, prev, now);
    let death = deaths(namespace, pod, status, prev, now);
    if tracked_of(status).running {
        death + restart + starts(namespace, pod, status, prev, now)
    } else {
        restart + death
    }
}

/// The tracked containers, and the events so far.
pub struct Watched {
    pub state: Seq<(Seq<char>, TrackedContainer)>,
    pub events: Seq<Lifecycle>,
}

/// What one entry of `containerStatuses` adds. An entry without a name adds nothing.
pub open spec fn observed(w: Watched, namespace: Seq<char>, pod: Seq<char>, status: Tree, now: int) -> Watched {
    let container = text_of(member(Some(status), "name"@));
    if container.len() == 0 {
        w
    } else {
        let id = id_prefix(namespace, pod) + container;
        let prev = find(w.state, id);
        Watched {
            state: put(w.state, id, tracked_of(status)),
            events: w.events + shown(namespace, pod, status, prev, now),
        }
    }
}

/// What the entries of `containerStatuses` add, one after the other.
pub open spec fn all_observed(
    w: Watched,
    namespace: Seq<char>,
    pod: Seq<char>,
    statuses: Seq<Tree>,
    now: int,
) -> Watched
    decreases statuses.len(),
{
    if statuses.len() == 0 {
        w
    } else {
        observed(
            all_observed(w, namespace, pod, statuses.drop_last(), now),
            namespace,
            pod,
            statuses.last(),
            now,
        )
    }
}

/// What the deletion of a pod leaves: no container of the pod, and a `destroy` for each that was
/// tracked.
pub open spec fn destroyed(
    state: Seq<(Seq<char>, TrackedContainer)>,
    namespace: Seq<char>,
    pod: Seq<char>,
    now: int,
) -> Watched {
    let prefix = id_prefix(namespace, pod);
    let ids = matching(state, prefix);
    Watched {
        state: kept(state, prefix),
        events: Seq::new(
            ids.len(),
            |i: int|
                Lifecycle {
                    action: "destroy"@,
                    id: ids[i],
                    attributes: base_entries(namespace, pod, after_last(ids[i], '/')),
                    time: now,
                },
        ),
    }
}

/// What a watch event does to the tracked containers, and the events that follow from it.
pub open spec fn applied(
    state: Seq<(Seq<char>, TrackedContainer)>,
    event_type: Seq<char>,
    pod: Tree,
    now: int,
) -> Watched {
    let metadata = member(Some(pod), "metadata"@);
    let namespace = text_of(member(metadata, "namespace"@));
    let name = text_of(member(metadata, "name"@));
    let statuses = items_of(member(member(Some(pod), "status"@), "containerStatuses"@));
    if namespace.len() == 0 || name.len() == 0 {
        Watched { state, events: seq![] }
    } else if event_type == "DELETED"@ {
        destroyed(state, namespace, name, now)
    } else {
        match statuses {
            Some(items) => all_observed(Watched { state, events: seq![] }, namespace, name, items, now),
            None => Watched { state, events: seq![] },
        }
    }
}

// ── Laws ─────────────────────────────────────────────────────────────────────

/// The ids of a pod's containers begin with its prefix, and differ where their names do.
proof fn lemma_ids(prefix: Seq<char>, a: Seq<char>, b: Seq<char>)
    ensures
        begins_with(prefix + a, prefix),
        prefix + a == prefix + b ==> a == b,
{
    assert((prefix + a).take(prefix.len() as int) =~= prefix);
    assert((prefix + a).skip(prefix.len() as int) =~= a);
    assert((prefix + b).skip(prefix.len() as int) =~= b);
}

/// The name in an entry of `containerStatuses`.
pub open spec fn status_name(status: Tree) -> Seq<char> {
    text_of(member(Some(status), "name"@))
}

/// Whether an entry of `containerStatuses` has a name and is both running and terminated.
pub open spec fn is_torn(status: Tree) -> bool {
    status_name(status).len() > 0 && tracked_of(status).running && member(
        member(Some(status), "state"@),
        "terminated"@,
    ) is Some
}

/// Whether entries under one name say the same of the container, and none is both running and
/// terminated; entries without a name do not matter. An API server gives each container of a pod
/// one entry with one state.
pub open spec fn coherent(statuses: Seq<Tree>) -> bool {
    &&& forall|i: int, j: int|
        0 <= i < j < statuses.len() && status_name(#[trigger] statuses[i]).len() > 0 && status_name(statuses[i])
            == status_name(#[trigger] statuses[j]) ==> tracked_of(statuses[i]) == tracked_of(statuses[j])
    &&& forall|i: int| 0 <= i < statuses.len() ==> !is_torn(#[trigger] statuses[i])
}

/// After a pass over the entries each named container is tracked as its entry says.
proof fn lemma_pass_tracks(
    w: Watched,
    namespace: Seq<char>,
    pod: Seq<char>,
    statuses: Seq<Tree>,
    now: int,
    i: int,
)
    requires
        coherent(statuses),
        0 <= i < statuses.len(),
        status_name(statuses[i]).len() > 0,
    ensures
        find(
            all_observed(w, namespace, pod, statuses, now).state,
            id_prefix(namespace, pod) + status_name(statuses[i]),
        ) == Some(tracked_of(statuses[i])),
    decreases statuses.len(),
{
    let rest = statuses.drop_last();
    let before = all_observed(w, namespace, pod, rest, now);
    let last = statuses.last();
    let prefix = id_prefix(namespace, pod);
    let id = prefix + status_name(statuses[i]);
    assert(coherent(rest)) by {
        assert forall|a: int, b: int|
            0 <= a < b < rest.len() && status_name(#[trigger] rest[a]).len() > 0 && status_name(rest[a])
                == status_name(#[trigger] rest[b]) implies tracked_of(rest[a]) == tracked_of(rest[b]) by {
            assert(rest[a] == statuses[a] && rest[b] == statuses[b]);
        }
        assert forall|a: int| 0 <= a < rest.len() implies !is_torn(#[trigger] rest[a]) by {
            assert(rest[a] == statuses[a]);
        }
    }
    if status_name(last).len() > 0 {
        put_then_find(before.state, prefix + status_name(last), tracked_of(last), id);
        lemma_ids(prefix, status_name(statuses[i]), status_name(last));
    }
    if i < rest.len() {
        assert(rest[i] == statuses[i]);
        lemma_pass_tracks(w, namespace, pod, rest, now, i);
    }
}

/// A pass over entries that are tracked as they say changes nothing.
proof fn lemma_pass_repeats(
    state: Seq<(Seq<char>, TrackedContainer)>,
    namespace: Seq<char>,
    pod: Seq<char>,
    statuses: Seq<Tree>,
    now: int,
)
    requires
        forall|i: int|
            0 <= i < statuses.len() && status_name(#[trigger] statuses[i]).len() > 0 ==> find(
                state,
                id_prefix(namespace, pod) + status_name(statuses[i]),
            ) == Some(tracked_of(statuses[i])),
        forall|i: int| 0 <= i < statuses.len() ==> !is_torn(#[trigger] statuses[i]),
    ensures
        all_observed(Watched { state, events: seq![] }, namespace, pod, statuses, now) == (Watched {
            state,
            events: seq![],
        }),
    decreases statuses.len(),
{
    if statuses.len() > 0 {
        let rest = statuses.drop_last();
        assert forall|i: int| 0 <= i < rest.len() && status_name(#[trigger] rest[i]).len() > 0 implies find(
            state,
            id_prefix(namespace, pod) + status_name(rest[i]),
        ) == Some(tracked_of(rest[i])) by {
            assert(rest[i] == statuses[i]);
        }
        assert forall|i: int| 0 <= i < rest.len() implies !is_torn(#[trigger] rest[i]) by {
            assert(rest[i] == statuses[i]);
        }
        lemma_pass_repeats(state, namespace, pod, rest, now);
        let last = statuses.last();
        assert(last == statuses[statuses.len() - 1]);
        if status_name(last).len() > 0 {
            put_again(state, id_prefix(namespace, pod) + status_name(last), tracked_of(last));
            let none: Seq<Lifecycle> = seq![];
            assert(none + shown(namespace, pod, last, Some(tracked_of(last)), now) =~= none);
        }
    }
}

/// The entries of `containerStatuses` in a pod, none where there is no such list.
pub open spec fn statuses_of(pod: Tree) -> Seq<Tree> {
    match member(member(Some(pod), "status"@), "containerStatuses"@) {
        Some(Tree::Array(items)) => items,
        _ => seq![],
    }
}

/// The same watch event a second time changes nothing and emits nothing.
pub proof fn repeated_event_is_silent(
    state: Seq<(Seq<char>, TrackedContainer)>,
    event_type: Seq<char>,
    pod: Tree,
    now: int,
    later: int,
)
    requires
        coherent(statuses_of(pod)),
    ensures
        applied(applied(state, event_type, pod, now).state, event_type, pod, later) == (Watched {
            state: applied(state, event_type, pod, now).state,
            events: seq![],
        }),
{
    let metadata = member(Some(pod), "metadata"@);
    let namespace = text_of(member(metadata, "namespace"@));
    let name = text_of(member(metadata, "name"@));
    let once = applied(state, event_type, pod, now);
    if namespace.len() > 0 && name.len() > 0 {
        if event_type == "DELETED"@ {
            kept_then_matching(state, id_prefix(namespace, name));
            assert(applied(once.state, event_type, pod, later).events =~= seq![]);
        } else if items_of(member(member(Some(pod), "status"@), "containerStatuses"@)) is Some {
            let items = statuses_of(pod);
            assert forall|i: int| 0 <= i < items.len() && status_name(#[trigger] items[i]).len() > 0 implies find(
                once.state,
                id_prefix(namespace, name) + status_name(items[i]),
            ) == Some(tracked_of(items[i])) by {
                lemma_pass_tracks(Watched { state, events: seq![] }, namespace, name, items, now, i);
            }
            lemma_pass_repeats(once.state, namespace, name, items, later);
        }
    }
}

/// A deletion forgets every container of the pod and no other.
pub proof fn deletion_forgets_the_pod(
    state: Seq<(Seq<char>, TrackedContainer)>,
    pod: Tree,
    now: int,
    id: Seq<char>,
)
    ensures
        ({
            let metadata = member(Some(pod), "metadata"@);
            let namespace = text_of(member(metadata, "namespace"@));
            let name = text_of(member(metadata, "name"@));
            namespace.len() > 0 && name.len() > 0 ==> find(applied(state, "DELETED"@, pod, now).state, id)
                == if begins_with(id, id_prefix(namespace, name)) {
                None
            } else {
                find(state, id)
            }
        }),
{
    let metadata = member(Some(pod), "metadata"@);
    let namespace = text_of(member(metadata, "namespace"@));
    let name = text_of(member(metadata, "name"@));
    kept_then_find(state, id_prefix(namespace, name), id);
}

/// Where the ids of the containers of a watch event's pod begin.
pub open spec fn pod_prefix(pod: Tree) -> Seq<char> {
    let metadata = member(Some(pod), "metadata"@);
    text_of(member(metadata, "namespace"@)) + "/"@ + text_of(member(metadata, "name"@)) + "/"@
}

proof fn lemma_pass_concerns(
    w: Watched,
    namespace: Seq<char>,
    pod: Seq<char>,
    statuses: Seq<Tree>,
    now: int,
    id: Seq<char>,
)
    requires
        forall|i: int|
            0 <= i < w.events.len() ==> begins_with((#[trigger] w.events[i]).id, id_prefix(namespace, pod)),
    ensures
        forall|i: int|
            0 <= i < all_observed(w, namespace, pod, statuses, now).events.len() ==> begins_with(
                (#[trigger] all_observed(w, namespace, pod, statuses, now).events[i]).id,
                id_prefix(namespace, pod),
            ),
        !begins_with(id, id_prefix(namespace, pod)) ==> find(
            all_observed(w, namespace, pod, statuses, now).state,
            id,
        ) == find(w.state, id),
        distinct(w.state) ==> distinct(all_observed(w, namespace, pod, statuses, now).state),
    decreases statuses.len(),
{
    if statuses.len() > 0 {
        let before = all_observed(w, namespace, pod, statuses.drop_last(), now);
        let status = statuses.last();
        let prefix = id_prefix(namespace, pod);
        lemma_pass_concerns(w, namespace, pod, statuses.drop_last(), now, id);
        lemma_ids(prefix, status_name(status), status_name(status));
        put_then_find(before.state, prefix + status_name(status), tracked_of(status), id);
        if distinct(before.state) {
            put_keeps_distinct(before.state, prefix + status_name(status), tracked_of(status));
        }
    }
}

/// A watch event concerns its own pod: the events it emits are about containers of that pod, and
/// the containers of other pods stay as they were.
pub proof fn event_concerns_its_pod(
    state: Seq<(Seq<char>, TrackedContainer)>,
    event_type: Seq<char>,
    pod: Tree,
    now: int,
    id: Seq<char>,
)
    ensures
        forall|i: int|
            0 <= i < applied(state, event_type, pod, now).events.len() ==> begins_with(
                (#[trigger] applied(state, event_type, pod, now).events[i]).id,
                pod_prefix(pod),
            ),
        !begins_with(id, pod_prefix(pod)) ==> find(applied(state, event_type, pod, now).state, id) == find(
            state,
            id,
        ),
{
    let metadata = member(Some(pod), "metadata"@);
    let namespace = text_of(member(metadata, "namespace"@));
    let name = text_of(member(metadata, "name"@));
    lemma_pass_concerns(Watched { state, events: seq![] }, namespace, name, statuses_of(pod), now, id);
    kept_then_find(state, pod_prefix(pod), id);
    matching_is_membership(state, pod_prefix(pod));
}

/// Whether `action` is one that events are emitted for.
pub open spec fn is_action(action: Seq<char>) -> bool {
    action == "start"@ || action == "die"@ || action == "oom"@ || action == "destroy"@
}

/// Whether an event has a known action and says which pod and container it is about; a `destroy`
/// says so of a container that is tracked no more, any other event under its id.
pub open spec fn is_complete(e: Lifecycle, namespace: Seq<char>, pod: Seq<char>) -> bool {
    &&& is_action(e.action)
    &&& find(e.attributes, "namespace"@) == Some(namespace)
    &&& find(e.attributes, "pod"@) == Some(pod)
    &&& find(e.attributes, "name"@) matches Some(name)
    &&& e.action != "destroy"@ ==> e.id == id_prefix(namespace, pod) + name
}

/// The three attributes that every event carries are found, whatever follows them.
proof fn lemma_base_entries(
    namespace: Seq<char>,
    pod: Seq<char>,
    container: Seq<char>,
    attributes: Seq<(Seq<char>, Seq<char>)>,
)
    requires
        attributes.len() >= 3,
        attributes.take(3) == base_entries(namespace, pod, container),
    ensures
        find(attributes, "name"@) == Some(container),
        find(attributes, "namespace"@) == Some(namespace),
        find(attributes, "pod"@) == Some(pod),
{
    reveal_strlit("name");
    reveal_strlit("namespace");
    reveal_strlit("pod");
    assert("name"@.len() == 4 && "namespace"@.len() == 9 && "pod"@.len() == 3);
    let base = base_entries(namespace, pod, container);
    assert(attributes[0] == base[0] && attributes[1] == base[1] && attributes[2] == base[2]) by {
        assert(attributes.take(3)[0] == attributes[0]);
        assert(attributes.take(3)[1] == attributes[1]);
        assert(attributes.take(3)[2] == attributes[2]);
    }
    first_entry_is_found(attributes, "name"@, 0);
    first_entry_is_found(attributes, "namespace"@, 1);
    first_entry_is_found(attributes, "pod"@, 2);
}

proof fn lemma_actions()
    ensures
        "start"@ != "destroy"@,
        "die"@ != "destroy"@,
        "oom"@ != "destroy"@,
        "start"@ != "oom"@,
        "die"@ != "oom"@,
        "destroy"@ != "oom"@,
{
    reveal_strlit("start");
    reveal_strlit("die");
    reveal_strlit("oom");
    reveal_strlit("destroy");
    assert("start"@.len() == 5 && "die"@.len() == 3 && "oom"@.len() == 3 && "destroy"@.len() == 7);
    assert("die"@[0] == 'd' && "oom"@[0] == 'o');
}

/// Whether an event is complete and no `destroy`.
spec fn is_live(e: Lifecycle, namespace: Seq<char>, pod: Seq<char>) -> bool {
    is_complete(e, namespace, pod) && e.action != "destroy"@
}

/// What one entry of `containerStatuses` shows is complete, and an `oom` in it is followed by its
/// `die`.
proof fn lemma_entry_events(
    namespace: Seq<char>,
    pod: Seq<char>,
    status: Tree,
    prev: Option<TrackedContainer>,
    now: int,
)
    ensures
        ({
            let all = shown(namespace, pod, status, prev, now);
            &&& forall|i: int| 0 <= i < all.len() ==> is_live(#[trigger] all[i], namespace, pod)
            &&& ooms_die(all)
        }),
{
    let container = status_name(status);
    let terminated = member(member(Some(status), "state"@), "terminated"@);
    let base = base_entries(namespace, pod, container);
    let death = death_entries(namespace, pod, container, terminated);
    assert(base.take(3) =~= base);
    assert(death.take(3) =~= base);
    lemma_base_entries(namespace, pod, container, base);
    lemma_base_entries(namespace, pod, container, death);
    lemma_actions();
    let r = restarts(namespace, pod, status, prev, now);
    let d = deaths(namespace, pod, status, prev, now);
    let s = starts(namespace, pod, status, prev, now);
    let all = shown(namespace, pod, status, prev, now);
    // Where the deaths begin.
    let k = if tracked_of(status).running {
        0
    } else {
        r.len() as int
    };
    assert forall|i: int| 0 <= i < all.len() implies is_live(#[trigger] all[i], namespace, pod) && ((#[trigger] all[i]).action
        == "oom"@ ==> i + 1 < all.len() && is_death_of(all[i + 1], all[i])) by {
        if k <= i < k + d.len() {
            assert(all[i] == d[i - k]);
            if i == k && d.len() == 2 {
                assert(all[i + 1] == d[1]);
            }
        } else if !tracked_of(status).running {
            assert(all[i] == r[i]);
        } else if i < d.len() + r.len() {
            assert(all[i] == r[i - d.len()]);
        } else {
            assert(all[i] == s[i - d.len() - r.len()]);
        }
    }
}

/// Whether `die` is the death that goes with `oom`.
pub open spec fn is_death_of(die: Lifecycle, oom: Lifecycle) -> bool {
    die == (Lifecycle { action: "die"@, ..oom })
}

/// Whether each `oom` is directly followed by the `die` that goes with it.
pub open spec fn ooms_die(events: Seq<Lifecycle>) -> bool {
    forall|i: int|
        0 <= i < events.len() && (#[trigger] events[i]).action == "oom"@ ==> i + 1 < events.len() && is_death_of(
            events[i + 1],
            events[i],
        )
}

proof fn lemma_pass_events(
    w: Watched,
    namespace: Seq<char>,
    pod: Seq<char>,
    statuses: Seq<Tree>,
    now: int,
)
    requires
        w.events.len() == 0,
    ensures
        ({
            let all = all_observed(w, namespace, pod, statuses, now).events;
            &&& forall|i: int| 0 <= i < all.len() ==> is_live(#[trigger] all[i], namespace, pod)
            &&& ooms_die(all)
        }),
    decreases statuses.len(),
{
    if statuses.len() > 0 {
        let before = all_observed(w, namespace, pod, statuses.drop_last(), now);
        let status = statuses.last();
        lemma_pass_events(w, namespace, pod, statuses.drop_last(), now);
        if status_name(status).len() > 0 {
            let prev = find(before.state, id_prefix(namespace, pod) + status_name(status));
            let added = shown(namespace, pod, status, prev, now);
            lemma_entry_events(namespace, pod, status, prev, now);
            let all = before.events + added;
            let n = before.events.len();
            assert forall|i: int| 0 <= i < all.len() implies is_live(#[trigger] all[i], namespace, pod) by {
                if i < n {
                    assert(all[i] == before.events[i]);
                } else {
                    assert(all[i] == added[i - n]);
                }
            }
            assert forall|i: int| 0 <= i < all.len() && (#[trigger] all[i]).action == "oom"@ implies i + 1
                < all.len() && is_death_of(all[i + 1], all[i]) by {
                if i < n {
                    assert(all[i] == before.events[i]);
                    assert(all[i + 1] == before.events[i + 1]);
                } else {
                    assert(all[i] == added[i - n]);
                    assert(all[i + 1] == added[i + 1 - n]);
                }
            }
        }
    }
}

/// Every emitted event has one of the four actions and says which pod and container it is about,
/// and each `oom` is directly followed by the `die` of the same container.
pub proof fn emitted_events_are_complete(
    state: Seq<(Seq<char>, TrackedContainer)>,
    event_type: Seq<char>,
    pod: Tree,
    now: int,
)
    ensures
        ({
            let metadata = member(Some(pod), "metadata"@);
            let namespace = text_of(member(metadata, "namespace"@));
            let name = text_of(member(metadata, "name"@));
            let all = applied(state, event_type, pod, now).events;
            &&& forall|i: int| 0 <= i < all.len() ==> is_complete(#[trigger] all[i], namespace, name)
            &&& ooms_die(all)
        }),
{
    let metadata = member(Some(pod), "metadata"@);
    let namespace = text_of(member(metadata, "namespace"@));
    let name = text_of(member(metadata, "name"@));
    let all = applied(state, event_type, pod, now).events;
    lemma_pass_events(Watched { state, events: seq![] }, namespace, name, statuses_of(pod), now);
    if namespace.len() > 0 && name.len() > 0 && event_type == "DELETED"@ {
        lemma_actions();
        let ids = matching(state, id_prefix(namespace, name));
        assert forall|i: int| 0 <= i < all.len() implies is_complete(#[trigger] all[i], namespace, name) by {
            let base = base_entries(namespace, name, after_last(ids[i], '/'));
            assert(base.take(3) =~= base);
            lemma_base_entries(namespace, name, after_last(ids[i], '/'), base);
        }
    }
}

/// A pod's deletion, and nothing else, destroys.
pub proof fn only_deletions_destroy(
    state: Seq<(Seq<char>, TrackedContainer)>,
    event_type: Seq<char>,
    pod: Tree,
    now: int,
    i: int,
)
    requires
        0 <= i < applied(state, event_type, pod, now).events.len(),
    ensures
        applied(state, event_type, pod, now).events[i].action == "destroy"@ <==> event_type == "DELETED"@,
{
    let metadata = member(Some(pod), "metadata"@);
    let namespace = text_of(member(metadata, "namespace"@));
    let name = text_of(member(metadata, "name"@));
    lemma_pass_events(Watched { state, events: seq![] }, namespace, name, statuses_of(pod), now);
}

/// A container that becomes running starts, once.
pub proof fn becoming_running_starts(
    namespace: Seq<char>,
    pod: Seq<char>,
    status: Tree,
    prev: Option<TrackedContainer>,
    now: int,
)
    requires
        !was_running(prev),
        tracked_of(status).running,
    ensures
        starts(namespace, pod, status, prev, now).len() == 1,
        starts(namespace, pod, status, prev, now)[0].action == "start"@,
{
}

/// A container that ran and is terminated dies, after an `oom` where that was the reason.
pub proof fn terminating_dies(
    namespace: Seq<char>,
    pod: Seq<char>,
    status: Tree,
    prev: Option<TrackedContainer>,
    now: int,
)
    requires
        was_running(prev),
        member(member(Some(status), "state"@), "terminated"@) is Some,
    ensures
        deaths(namespace, pod, status, prev, now).last().action == "die"@,
        deaths(namespace, pod, status, prev, now).len() == if text_of(
            member(member(member(Some(status), "state"@), "terminated"@), "reason"@),
        ) == "OOMKilled"@ {
            2nat
        } else {
            1nat
        },
{
}

/// A container keeps its tracked state through entries of other names.
proof fn lemma_pass_leaves(
    w: Watched,
    namespace: Seq<char>,
    pod: Seq<char>,
    statuses: Seq<Tree>,
    now: int,
    name: Seq<char>,
)
    requires
        forall|j: int| 0 <= j < statuses.len() ==> status_name(#[trigger] statuses[j]) != name,
    ensures
        find(all_observed(w, namespace, pod, statuses, now).state, id_prefix(namespace, pod) + name) == find(
            w.state,
            id_prefix(namespace, pod) + name,
        ),
    decreases statuses.len(),
{
    if statuses.len() > 0 {
        let rest = statuses.drop_last();
        let last = statuses.last();
        let prefix = id_prefix(namespace, pod);
        assert forall|j: int| 0 <= j < rest.len() implies status_name(#[trigger] rest[j]) != name by {
            assert(rest[j] == statuses[j]);
        }
        lemma_pass_leaves(w, namespace, pod, rest, now, name);
        assert(last == statuses[statuses.len() - 1]);
        lemma_ids(prefix, status_name(last), name);
        put_then_find(
            all_observed(w, namespace, pod, rest, now).state,
            prefix + status_name(last),
            tracked_of(last),
            prefix + name,
        );
    }
}

/// What the first entries show stays at the front.
proof fn lemma_pass_grows(
    w: Watched,
    namespace: Seq<char>,
    pod: Seq<char>,
    statuses: Seq<Tree>,
    now: int,
    i: int,
)
    requires
        0 <= i <= statuses.len(),
    ensures
        ({
            let part = all_observed(w, namespace, pod, statuses.take(i), now).events;
            let all = all_observed(w, namespace, pod, statuses, now).events;
            part.len() <= all.len() && all.take(part.len() as int) == part
        }),
    decreases statuses.len(),
{
    let part = all_observed(w, namespace, pod, statuses.take(i), now).events;
    let all = all_observed(w, namespace, pod, statuses, now).events;
    if i == statuses.len() {
        assert(statuses.take(i) =~= statuses);
        assert(all.take(part.len() as int) =~= part);
    } else {
        let rest = statuses.drop_last();
        let before = all_observed(w, namespace, pod, rest, now).events;
        assert(rest.take(i) =~= statuses.take(i));
        lemma_pass_grows(w, namespace, pod, rest, now, i);
        assert(all.take(before.len() as int) =~= before);
        assert(all.take(part.len() as int) =~= before.take(part.len() as int));
    }
}

/// A container that was tracked as running and whose restart counter went up is reported as dead
/// and, directly behind that, as started, whatever it does now. Entry `i` is the first of its
/// name.
pub proof fn unseen_restart_is_reported(
    state: Seq<(Seq<char>, TrackedContainer)>,
    event_type: Seq<char>,
    pod: Tree,
    now: int,
    i: int,
) -> (at: int)
    requires
        event_type != "DELETED"@,
        has_identity(pod),
        0 <= i < statuses_of(pod).len(),
        status_name(statuses_of(pod)[i]).len() > 0,
        forall|j: int|
            0 <= j < i ==> status_name(#[trigger] statuses_of(pod)[j]) != status_name(statuses_of(pod)[i]),
        was_running(find(state, pod_prefix(pod) + status_name(statuses_of(pod)[i]))),
        restarted(
            find(state, pod_prefix(pod) + status_name(statuses_of(pod)[i])),
            statuses_of(pod)[i],
        ),
    ensures
        ({
            let id = pod_prefix(pod) + status_name(statuses_of(pod)[i]);
            let events = applied(state, event_type, pod, now).events;
            &&& 0 <= at < events.len() - 1
            &&& events[at].action == "die"@ && events[at].id == id
            &&& events[at + 1].action == "start"@ && events[at + 1].id == id
        }),
{
    let metadata = member(Some(pod), "metadata"@);
    let namespace = text_of(member(metadata, "namespace"@));
    let name = text_of(member(metadata, "name"@));
    let items = statuses_of(pod);
    let w = Watched { state, events: seq![] };
    let before = all_observed(w, namespace, name, items.take(i), now);
    let prev = find(state, pod_prefix(pod) + status_name(items[i]));
    assert forall|j: int| 0 <= j < items.take(i).len() implies status_name(#[trigger] items.take(i)[j])
        != status_name(items[i]) by {
        assert(items.take(i)[j] == items[j]);
    }
    lemma_pass_leaves(w, namespace, name, items.take(i), now, status_name(items[i]));
    let upto = items.take(i + 1);
    assert(upto.drop_last() =~= items.take(i));
    assert(upto.last() == items[i]);
    let after = all_observed(w, namespace, name, upto, now).events;
    let added = shown(namespace, name, items[i], prev, now);
    assert(after == before.events + added);
    let pair = restarts(namespace, name, items[i], prev, now);
    let k = if tracked_of(items[i]).running {
        deaths(namespace, name, items[i], prev, now).len() as int
    } else {
        0
    };
    let at = before.events.len() + k;
    assert(added[k] == pair[0] && added[k + 1] == pair[1]);
    assert(after[at] == pair[0] && after[at + 1] == pair[1]);
    lemma_pass_grows(w, namespace, name, items, now, i + 1);
    let all = applied(state, event_type, pod, now).events;
    assert(all.take(after.len() as int)[at] == all[at]);
    assert(all.take(after.len() as int)[at + 1] == all[at + 1]);
    at
}

/// A container that stays as it was is not reported.
pub proof fn no_change_is_not_reported(
    namespace: Seq<char>,
    pod: Seq<char>,
    status: Tree,
    prev: Option<TrackedContainer>,
    now: int,
)
    requires
        prev == Some(tracked_of(status)),
        status_name(status).len() > 0,
        !is_torn(status),
    ensures
        shown(namespace, pod, status, prev, now).len() == 0,
{
}

/// Whether a pod has a namespace and a name.
pub open spec fn has_identity(pod: Tree) -> bool {
    let metadata = member(Some(pod), "metadata"@);
    text_of(member(metadata, "namespace"@)).len() > 0 && text_of(member(metadata, "name"@)).len() > 0
}

/// Whether no container of a pod is tracked.
pub open spec fn is_unseen(state: Seq<(Seq<char>, TrackedContainer)>, pod: Tree) -> bool {
    forall|i: int| 0 <= i < state.len() ==> !begins_with((#[trigger] state[i]).0, pod_prefix(pod))
}

/// Whether `id` is that of a container that a pod's status names.
pub open spec fn is_listed(pod: Tree, id: Seq<char>) -> bool {
    exists|i: int|
        0 <= i < statuses_of(pod).len() && status_name(#[trigger] statuses_of(pod)[i]).len() > 0 && id
            == pod_prefix(pod) + status_name(statuses_of(pod)[i])
}

/// A pass over the entries of a pod of which nothing was tracked appends one entry for each name.
proof fn lemma_first_pass(
    state: Seq<(Seq<char>, TrackedContainer)>,
    namespace: Seq<char>,
    pod: Seq<char>,
    statuses: Seq<Tree>,
    now: int,
) -> (added: Seq<(Seq<char>, TrackedContainer)>)
    requires
        forall|i: int| 0 <= i < state.len() ==> !begins_with((#[trigger] state[i]).0, id_prefix(namespace, pod)),
    ensures
        all_observed(Watched { state, events: seq![] }, namespace, pod, statuses, now).state == state + added,
        distinct(added),
        forall|i: int| 0 <= i < added.len() ==> begins_with((#[trigger] added[i]).0, id_prefix(namespace, pod)),
        forall|id: Seq<char>| #[trigger]
            find(added, id) is Some <==> exists|i: int|
                0 <= i < statuses.len() && status_name(#[trigger] statuses[i]).len() > 0 && id == id_prefix(
                    namespace,
                    pod,
                ) + status_name(statuses[i]),
    decreases statuses.len(),
{
    let w = Watched { state, events: seq![] };
    if statuses.len() == 0 {
        let added: Seq<(Seq<char>, TrackedContainer)> = seq![];
        assert(state + added =~= state);
        added
    } else {
        let rest = statuses.drop_last();
        let last = statuses.last();
        let prefix = id_prefix(namespace, pod);
        let before = lemma_first_pass(state, namespace, pod, rest, now);
        let key = prefix + status_name(last);
        let named = status_name(last).len() > 0;
        let added = if named {
            put(before, key, tracked_of(last))
        } else {
            before
        };
        lemma_ids(prefix, status_name(last), status_name(last));
        if named {
            let all = state + before;
            let n = state.len() as int;
            assert forall|j: int| 0 <= j < n implies (#[trigger] all[j]).0 != key by {
                assert(all[j] == state[j]);
            }
            lemma_put_skip(all, key, tracked_of(last), n);
            assert(all.take(n) =~= state);
            assert(all.skip(n) =~= before);
            put_keeps_distinct(before, key, tracked_of(last));
            assert forall|i: int| 0 <= i < added.len() implies begins_with((#[trigger] added[i]).0, prefix) by {
                let k = added[i].0;
                find_is_membership(added, k);
                put_then_find(before, key, tracked_of(last), k);
                find_is_membership(before, k);
            }
        }
        assert forall|id: Seq<char>| #[trigger] find(added, id) is Some <==> exists|i: int|
            0 <= i < statuses.len() && status_name(#[trigger] statuses[i]).len() > 0 && id == prefix + status_name(
                statuses[i],
            ) by {
            if named {
                put_then_find(before, key, tracked_of(last), id);
            }
            if find(before, id) is Some {
                let i = choose|i: int|
                    0 <= i < rest.len() && status_name(#[trigger] rest[i]).len() > 0 && id == prefix + status_name(
                        rest[i],
                    );
                assert(statuses[i] == rest[i]);
            }
            if named && id == key {
                assert(statuses[statuses.len() - 1] == last);
            }
            if exists|i: int|
                0 <= i < statuses.len() && status_name(#[trigger] statuses[i]).len() > 0 && id == prefix
                    + status_name(statuses[i]) {
                let i = choose|i: int|
                    0 <= i < statuses.len() && status_name(#[trigger] statuses[i]).len() > 0 && id == prefix
                        + status_name(statuses[i]);
                if i < rest.len() {
                    assert(rest[i] == statuses[i]);
                    assert(find(before, id) is Some);
                }
            }
        }
        added
    }
}

/// The first sight of a pod and its deletion undo each other: what was tracked before is tracked
/// again, and each container that the pod's status named is destroyed once.
pub proof fn deletion_undoes_the_first_sight(
    state: Seq<(Seq<char>, TrackedContainer)>,
    event_type: Seq<char>,
    pod: Tree,
    now: int,
    later: int,
)
    requires
        event_type != "DELETED"@,
        has_identity(pod),
        is_unseen(state, pod),
    ensures
        ({
            let gone = applied(applied(state, event_type, pod, now).state, "DELETED"@, pod, later);
            &&& gone.state == state
            &&& forall|i: int| 0 <= i < gone.events.len() ==> (#[trigger] gone.events[i]).action == "destroy"@
            &&& forall|i: int| 0 <= i < gone.events.len() ==> is_listed(pod, (#[trigger] gone.events[i]).id)
            &&& forall|i: int, j: int|
                0 <= i < j < gone.events.len() ==> (#[trigger] gone.events[i]).id != (#[trigger] gone.events[j]).id
            &&& forall|id: Seq<char>| #[trigger]
                is_listed(pod, id) ==> exists|i: int|
                    0 <= i < gone.events.len() && (#[trigger] gone.events[i]).id == id
        }),
{
    let metadata = member(Some(pod), "metadata"@);
    let namespace = text_of(member(metadata, "namespace"@));
    let name = text_of(member(metadata, "name"@));
    let prefix = pod_prefix(pod);
    let added = lemma_first_pass(state, namespace, name, statuses_of(pod), now);
    let first = applied(state, event_type, pod, now).state;
    assert(first =~= state + added);
    kept_of_parts(state, added, prefix);
    let gone = applied(first, "DELETED"@, pod, later);
    assert forall|i: int| 0 <= i < gone.events.len() implies is_listed(pod, (#[trigger] gone.events[i]).id) by {
        assert(gone.events[i].id == added[i].0);
        find_is_membership(added, added[i].0);
        assert(find(added, added[i].0) is Some);
    }
    assert forall|i: int, j: int| 0 <= i < j < gone.events.len() implies (#[trigger] gone.events[i]).id != (
    #[trigger] gone.events[j]).id by {
        assert(gone.events[i].id == added[i].0 && gone.events[j].id == added[j].0);
    }
    assert forall|id: Seq<char>| #[trigger] is_listed(pod, id) implies exists|i: int|
        0 <= i < gone.events.len() && (#[trigger] gone.events[i]).id == id by {
        assert(find(added, id) is Some);
        find_is_membership(added, id);
        let i = choose|i: int| 0 <= i < added.len() && (#[trigger] added[i]).0 == id;
        assert(gone.events[i].id == id);
    }
}

/// No container is ever tracked twice.
pub proof fn tracked_ids_stay_distinct(
    state: Seq<(Seq<char>, TrackedContainer)>,
    event_type: Seq<char>,
    pod: Tree,
    now: int,
)
    requires
        distinct(state),
    ensures
        distinct(applied(state, event_type, pod, now).state),
{
    let metadata = member(Some(pod), "metadata"@);
    let namespace = text_of(member(metadata, "namespace"@));
    let name = text_of(member(metadata, "name"@));
    lemma_pass_concerns(Watched { state, events: seq![] }, namespace, name, statuses_of(pod), now, seq![]);
    kept_keeps_distinct(state, pod_prefix(pod));
}

/// Whether no two events are of one container.
pub open spec fn ids_differ(events: Seq<Lifecycle>) -> bool {
    forall|i: int, j: int| 0 <= i < j < events.len() ==> (#[trigger] events[i]).id != (#[trigger] events[j]).id
}

/// A deletion destroys each tracked container of the pod once.
pub proof fn each_container_is_destroyed_once(
    state: Seq<(Seq<char>, TrackedContainer)>,
    pod: Tree,
    now: int,
    id: Seq<char>,
)
    requires
        distinct(state),
        has_identity(pod),
    ensures
        ({
            let events = applied(state, "DELETED"@, pod, now).events;
            &&& ids_differ(events)
            &&& (find(state, id) is Some && begins_with(id, pod_prefix(pod))) == exists|i: int|
                0 <= i < events.len() && (#[trigger] events[i]).id == id && events[i].action == "destroy"@
        }),
{
    let events = applied(state, "DELETED"@, pod, now).events;
    let ids = matching(state, pod_prefix(pod));
    matching_keys_are_distinct(state, pod_prefix(pod));
    matching_is_membership(state, pod_prefix(pod));
    assert(events.len() == ids.len());
    assert forall|i: int| 0 <= i < events.len() implies (#[trigger] events[i]).id == ids[i] by {}
    if find(state, id) is Some && begins_with(id, pod_prefix(pod)) {
        let k = choose|k: int| 0 <= k < ids.len() && ids[k] == id;
        assert(events[k].id == id);
    }
}

// ── What is emitted of one container ─────────────────────────────────────────

/// The events of container `id` among `events`, in order.
pub open spec fn about(events: Seq<Lifecycle>, id: Seq<char>) -> Seq<Lifecycle>
    decreases events.len(),
{
    if events.len() == 0 {
        seq![]
    } else if events.last().id == id {
        about(events.drop_last(), id).push(events.last())
    } else {
        about(events.drop_last(), id)
    }
}

/// Whether `e` is the event that container `name` of a pod did `action` at `time`, and says no
/// more than which container it is.
pub open spec fn is_plain_event(
    e: Lifecycle,
    action: Seq<char>,
    pod: Tree,
    name: Seq<char>,
    time: int,
) -> bool {
    let metadata = member(Some(pod), "metadata"@);
    &&& e.action == action
    &&& e.id == pod_prefix(pod) + name
    &&& e.time == time
    &&& e.attributes.len() == 3
    &&& find(e.attributes, "name"@) == Some(name)
    &&& find(e.attributes, "namespace"@) == Some(text_of(member(metadata, "namespace"@)))
    &&& find(e.attributes, "pod"@) == Some(text_of(member(metadata, "name"@)))
}

/// Whether `e` is the event that container `name` of a pod did `action` when it terminated: at the
/// time at which it finished, with the exit code and the reason that the terminated state gives.
pub open spec fn is_death_event(
    e: Lifecycle,
    action: Seq<char>,
    pod: Tree,
    name: Seq<char>,
    terminated: Option<Tree>,
    now: int,
) -> bool {
    let metadata = member(Some(pod), "metadata"@);
    &&& e.action == action
    &&& e.id == pod_prefix(pod) + name
    &&& e.time == match member(terminated, "finishedAt"@) {
        Some(Tree::Text(at)) => match rfc3339_instant(at) {
            Some((seconds, _)) => seconds as int,
            None => now,
        },
        _ => now,
    }
    &&& find(e.attributes, "name"@) == Some(name)
    &&& find(e.attributes, "namespace"@) == Some(text_of(member(metadata, "namespace"@)))
    &&& find(e.attributes, "pod"@) == Some(text_of(member(metadata, "name"@)))
    &&& find(e.attributes, "exitCode"@) == match member(terminated, "exitCode"@) {
        Some(Tree::Number(code)) => if i64::MIN <= code <= i64::MAX {
            Some(signed_text(code))
        } else {
            None
        },
        _ => None,
    }
    &&& find(e.attributes, "reason"@) == match member(terminated, "reason"@) {
        Some(Tree::Text(reason)) => if reason.len() > 0 {
            Some(reason)
        } else {
            None
        },
        _ => None,
    }
}

/// The restart counter in an entry of `containerStatuses`, zero where there is none.
pub open spec fn counter_in(status: Tree) -> int {
    match member(Some(status), "restartCount"@) {
        Some(Tree::Number(n)) => if i64::MIN <= n <= i64::MAX {
            n
        } else {
            0
        },
        _ => 0,
    }
}

/// When a container started that runs now, `now` where the entry does not say.
pub open spec fn started_at(status: Tree, now: int) -> int {
    match member(member(member(Some(status), "state"@), "running"@), "startedAt"@) {
        Some(Tree::Text(at)) => match rfc3339_instant(at) {
            Some((seconds, _)) => seconds as int,
            None => now,
        },
        _ => now,
    }
}

/// Whether entry `i` is the first of its name.
pub open spec fn is_first_of_name(statuses: Seq<Tree>, i: int) -> bool {
    &&& 0 <= i < statuses.len()
    &&& status_name(statuses[i]).len() > 0
    &&& forall|j: int| 0 <= j < i ==> status_name(#[trigger] statuses[j]) != status_name(statuses[i])
}

/// Whether entry `i` is the last of its name.
pub open spec fn is_last_of_name(statuses: Seq<Tree>, i: int) -> bool {
    &&& 0 <= i < statuses.len()
    &&& status_name(statuses[i]).len() > 0
    &&& forall|j: int|
        i < j < statuses.len() ==> status_name(#[trigger] statuses[j]) != status_name(statuses[i])
}

proof fn lemma_about_concat(a: Seq<Lifecycle>, b: Seq<Lifecycle>, id: Seq<char>)
    ensures
        about(a + b, id) == about(a, id) + about(b, id),
    decreases b.len(),
{
    if b.len() == 0 {
        assert(a + b =~= a);
        assert(about(a, id) + about(b, id) =~= about(a, id));
    } else {
        lemma_about_concat(a, b.drop_last(), id);
        assert((a + b).drop_last() =~= a + b.drop_last());
        assert((a + b).last() == b.last());
        if b.last().id == id {
            assert(about(a, id) + about(b.drop_last(), id).push(b.last()) =~= (about(a, id) + about(
                b.drop_last(),
                id,
            )).push(b.last()));
        }
    }
}

proof fn lemma_about_all(events: Seq<Lifecycle>, id: Seq<char>)
    requires
        forall|i: int| 0 <= i < events.len() ==> (#[trigger] events[i]).id == id,
    ensures
        about(events, id) == events,
    decreases events.len(),
{
    if events.len() > 0 {
        assert(events.last() == events[events.len() - 1]);
        assert forall|i: int| 0 <= i < events.drop_last().len() implies (#[trigger] events.drop_last()[i]).id
            == id by {
            assert(events.drop_last()[i] == events[i]);
        }
        lemma_about_all(events.drop_last(), id);
        assert(events.drop_last().push(events.last()) =~= events);
    }
}

proof fn lemma_about_none(events: Seq<Lifecycle>, id: Seq<char>)
    requires
        forall|i: int| 0 <= i < events.len() ==> (#[trigger] events[i]).id != id,
    ensures
        about(events, id) == Seq::<Lifecycle>::empty(),
    decreases events.len(),
{
    if events.len() > 0 {
        assert(events.last() == events[events.len() - 1]);
        assert forall|i: int| 0 <= i < events.drop_last().len() implies (#[trigger] events.drop_last()[i]).id
            != id by {
            assert(events.drop_last()[i] == events[i]);
        }
        lemma_about_none(events.drop_last(), id);
    }
}

/// What an entry shows is about its own container.
proof fn lemma_shown_ids(
    namespace: Seq<char>,
    pod: Seq<char>,
    status: Tree,
    prev: Option<TrackedContainer>,
    now: int,
)
    ensures
        forall|k: int|
            0 <= k < shown(namespace, pod, status, prev, now).len() ==> (#[trigger] shown(
                namespace,
                pod,
                status,
                prev,
                now,
            )[k]).id == id_prefix(namespace, pod) + status_name(status),
{
}

/// A pass over entries of other names emits nothing of a container.
proof fn lemma_pass_omits(
    w: Watched,
    namespace: Seq<char>,
    pod: Seq<char>,
    statuses: Seq<Tree>,
    now: int,
    name: Seq<char>,
)
    requires
        forall|j: int| 0 <= j < statuses.len() ==> status_name(#[trigger] statuses[j]) != name,
    ensures
        about(all_observed(w, namespace, pod, statuses, now).events, id_prefix(namespace, pod) + name) == about(
            w.events,
            id_prefix(namespace, pod) + name,
        ),
    decreases statuses.len(),
{
    if statuses.len() > 0 {
        let rest = statuses.drop_last();
        let last = statuses.last();
        let prefix = id_prefix(namespace, pod);
        let id = prefix + name;
        assert forall|j: int| 0 <= j < rest.len() implies status_name(#[trigger] rest[j]) != name by {
            assert(rest[j] == statuses[j]);
        }
        lemma_pass_omits(w, namespace, pod, rest, now, name);
        assert(last == statuses[statuses.len() - 1]);
        if status_name(last).len() > 0 {
            let before = all_observed(w, namespace, pod, rest, now);
            let prev = find(before.state, prefix + status_name(last));
            let added = shown(namespace, pod, last, prev, now);
            lemma_ids(prefix, status_name(last), name);
            lemma_shown_ids(namespace, pod, last, prev, now);
            lemma_about_none(added, id);
            lemma_about_concat(before.events, added, id);
            assert(about(before.events, id) + Seq::<Lifecycle>::empty() =~= about(before.events, id));
        }
    }
}

/// What a pass emits of a container begins with what its first entry shows, and is that where the
/// entry is the only one of its name.
proof fn lemma_pass_about(
    state: Seq<(Seq<char>, TrackedContainer)>,
    namespace: Seq<char>,
    pod: Seq<char>,
    statuses: Seq<Tree>,
    now: int,
    i: int,
)
    requires
        is_first_of_name(statuses, i),
    ensures
        ({
            let id = id_prefix(namespace, pod) + status_name(statuses[i]);
            let mine = about(
                all_observed(Watched { state, events: seq![] }, namespace, pod, statuses, now).events,
                id,
            );
            let first = shown(namespace, pod, statuses[i], find(state, id), now);
            &&& first.len() <= mine.len()
            &&& mine.take(first.len() as int) == first
            &&& is_last_of_name(statuses, i) ==> mine == first
        }),
    decreases statuses.len(),
{
    let w = Watched { state, events: seq![] };
    let name = status_name(statuses[i]);
    let prefix = id_prefix(namespace, pod);
    let id = prefix + name;
    let rest = statuses.drop_last();
    let last = statuses.last();
    let before = all_observed(w, namespace, pod, rest, now);
    let prev = find(before.state, prefix + status_name(last));
    let added = shown(namespace, pod, last, prev, now);
    let first = shown(namespace, pod, statuses[i], find(state, id), now);
    lemma_shown_ids(namespace, pod, last, prev, now);
    lemma_about_concat(before.events, added, id);
    if i == statuses.len() - 1 {
        assert forall|j: int| 0 <= j < rest.len() implies status_name(#[trigger] rest[j]) != name by {
            assert(rest[j] == statuses[j]);
        }
        lemma_pass_omits(w, namespace, pod, rest, now, name);
        lemma_pass_leaves(w, namespace, pod, rest, now, name);
        lemma_about_all(added, id);
        assert(about(w.events, id) =~= Seq::<Lifecycle>::empty());
        assert(Seq::<Lifecycle>::empty() + added =~= added);
        assert(first.take(first.len() as int) =~= first);
    } else {
        assert(rest[i] == statuses[i]);
        assert forall|j: int| 0 <= j < i implies status_name(#[trigger] rest[j]) != status_name(rest[i]) by {
            assert(rest[j] == statuses[j]);
        }
        lemma_pass_about(state, namespace, pod, rest, now, i);
        let early = about(before.events, id);
        if is_last_of_name(statuses, i) {
            assert(status_name(statuses[statuses.len() - 1]) != name);
            assert forall|j: int| i < j < rest.len() implies status_name(#[trigger] rest[j]) != status_name(
                rest[i],
            ) by {
                assert(rest[j] == statuses[j]);
            }
            lemma_ids(prefix, status_name(last), name);
            lemma_about_none(added, id);
            assert(early + Seq::<Lifecycle>::empty() =~= early);
        }
        let all = early + about(added, id);
        assert(all.take(first.len() as int) =~= early.take(first.len() as int));
    }
}

proof fn lemma_keys()
    ensures
        "exitCode"@ != "name"@,
        "exitCode"@ != "namespace"@,
        "exitCode"@ != "pod"@,
        "exitCode"@ != "reason"@,
        "reason"@ != "name"@,
        "reason"@ != "namespace"@,
        "reason"@ != "pod"@,
{
    reveal_strlit("name");
    reveal_strlit("namespace");
    reveal_strlit("pod");
    reveal_strlit("exitCode");
    reveal_strlit("reason");
    assert("name"@.len() == 4 && "namespace"@.len() == 9 && "pod"@.len() == 3 && "exitCode"@.len() == 8
        && "reason"@.len() == 6);
}

/// The attributes of a death, one by one.
proof fn lemma_death_entries(
    namespace: Seq<char>,
    pod: Seq<char>,
    container: Seq<char>,
    terminated: Option<Tree>,
)
    ensures
        ({
            let all = death_entries(namespace, pod, container, terminated);
            &&& find(all, "name"@) == Some(container)
            &&& find(all, "namespace"@) == Some(namespace)
            &&& find(all, "pod"@) == Some(pod)
            &&& find(all, "exitCode"@) == match integer_of(member(terminated, "exitCode"@)) {
                Some(code) => Some(signed_text(code)),
                None => None,
            }
            &&& find(all, "reason"@) == if text_of(member(terminated, "reason"@)).len() > 0 {
                Some(text_of(member(terminated, "reason"@)))
            } else {
                None
            }
        }),
{
    let base = base_entries(namespace, pod, container);
    let all = death_entries(namespace, pod, container, terminated);
    lemma_keys();
    assert(all.take(3) =~= base);
    lemma_base_entries(namespace, pod, container, all);
    assert(all[0] == base[0] && all[1] == base[1] && all[2] == base[2]);
    find_is_membership(all, "exitCode"@);
    find_is_membership(all, "reason"@);
    let coded = integer_of(member(terminated, "exitCode"@)) is Some;
    if coded {
        first_entry_is_found(all, "exitCode"@, 3);
    }
    if text_of(member(terminated, "reason"@)).len() > 0 {
        first_entry_is_found(
            all,
            "reason"@,
            if coded {
                4
            } else {
                3
            },
        );
    }
}

/// How many events an entry gives after what the container was tracked as: of its death, of a restart
/// that went unseen, and of its start.
pub open spec fn told(status: Tree, prev: Option<TrackedContainer>) -> (int, int, int) {
    let ran = prev matches Some(p) && p.running;
    let again = prev matches Some(p) && counter_in(status) > p.restart_count;
    let running = member(member(Some(status), "state"@), "running"@) is Some;
    let terminated = member(member(Some(status), "state"@), "terminated"@);
    let deaths: int = if terminated is Some && (ran || again) {
        if member(terminated, "reason"@) == Some(Tree::Text("OOMKilled"@)) {
            2
        } else {
            1
        }
    } else {
        0
    };
    let restarts: int = if ran && again {
        2
    } else {
        0
    };
    let starts: int = if running && !ran {
        1
    } else {
        0
    };
    (deaths, restarts, starts)
}

/// Whether `mine` begins with the events that an entry gives after what the container was tracked as:
/// - one that runs now and was not tracked as running starts, at the time at which it did;
/// - one that is terminated now and was tracked as running, or has restarted, dies, with its exit
///   code and its reason, directly after an `oom` where that was the reason;
/// - one that was tracked as running and has restarted dies now and starts, whatever it does now.
///
/// Where it runs now its start comes last, else its death does.
pub open spec fn tells(
    mine: Seq<Lifecycle>,
    pod: Tree,
    status: Tree,
    prev: Option<TrackedContainer>,
    now: int,
) -> bool {
    let name = status_name(status);
    let running = member(member(Some(status), "state"@), "running"@) is Some;
    let terminated = member(member(Some(status), "state"@), "terminated"@);
    let (deaths, restarts, starts) = told(status, prev);
    let death: int = if running {
        0
    } else {
        restarts
    };
    let restart: int = if running {
        deaths
    } else {
        0
    };
    let all = deaths + restarts + starts;
    &&& mine.len() >= all
    &&& deaths > 0 ==> is_death_event(mine[death + deaths - 1], "die"@, pod, name, terminated, now)
    &&& deaths > 1 ==> is_death_event(mine[death], "oom"@, pod, name, terminated, now)
    &&& restarts > 0 ==> is_plain_event(mine[restart], "die"@, pod, name, now)
    &&& restarts > 0 ==> is_plain_event(mine[restart + 1], "start"@, pod, name, started_at(status, now))
    &&& starts > 0 ==> is_plain_event(mine[all - 1], "start"@, pod, name, started_at(status, now))
}

proof fn lemma_shown_tells(pod: Tree, status: Tree, prev: Option<TrackedContainer>, now: int)
    ensures
        ({
            let metadata = member(Some(pod), "metadata"@);
            let first = shown(
                text_of(member(metadata, "namespace"@)),
                text_of(member(metadata, "name"@)),
                status,
                prev,
                now,
            );
            &&& tells(first, pod, status, prev, now)
            &&& first.len() == told(status, prev).0 + told(status, prev).1 + told(status, prev).2
        }),
{
    let metadata = member(Some(pod), "metadata"@);
    let namespace = text_of(member(metadata, "namespace"@));
    let pod_name = text_of(member(metadata, "name"@));
    let name = status_name(status);
    let terminated = member(member(Some(status), "state"@), "terminated"@);
    let first = shown(namespace, pod_name, status, prev, now);
    let base = base_entries(namespace, pod_name, name);
    assert(base.take(3) =~= base);
    lemma_base_entries(namespace, pod_name, name, base);
    lemma_death_entries(namespace, pod_name, name, terminated);
    reveal_strlit("OOMKilled");
    assert("OOMKilled"@.len() == 9);
    let d = deaths(namespace, pod_name, status, prev, now);
    let r = restarts(namespace, pod_name, status, prev, now);
    let s = starts(namespace, pod_name, status, prev, now);
    if tracked_of(status).running {
        assert(first =~= d + r + s);
    } else {
        assert(first =~= r + d);
    }
    let at_death: int = if tracked_of(status).running {
        0
    } else {
        r.len() as int
    };
    let at_restart: int = if tracked_of(status).running {
        d.len() as int
    } else {
        0
    };
    assert forall|k: int| 0 <= k < d.len() implies #[trigger] d[k] == first[at_death + k] by {}
    assert forall|k: int| 0 <= k < r.len() implies #[trigger] r[k] == first[at_restart + k] by {}
    if s.len() > 0 {
        assert(first[first.len() - 1] == s[0]);
        assert(is_plain_event(s[0], "start"@, pod, name, started_at(status, now)));
    }
    if d.len() > 0 {
        assert(is_death_event(d.last(), "die"@, pod, name, terminated, now));
    }
    if d.len() > 1 {
        assert(is_death_event(d[0], "oom"@, pod, name, terminated, now));
    }
    if r.len() > 0 {
        assert(is_plain_event(r[0], "die"@, pod, name, now));
        assert(is_plain_event(r[1], "start"@, pod, name, started_at(status, now)));
    }
}

/// What a pod's status shows of a container is emitted, by what the container was tracked as and
/// what its entry says; the entry is the first of its name. Where it is the only one of its name
/// nothing else is emitted of the container.
pub proof fn container_is_reported_as_it_changed(
    state: Seq<(Seq<char>, TrackedContainer)>,
    event_type: Seq<char>,
    pod: Tree,
    now: int,
    i: int,
)
    requires
        event_type != "DELETED"@,
        has_identity(pod),
        is_first_of_name(statuses_of(pod), i),
    ensures
        ({
            let status = statuses_of(pod)[i];
            let id = pod_prefix(pod) + status_name(status);
            let prev = find(state, id);
            let mine = about(applied(state, event_type, pod, now).events, id);
            &&& tells(mine, pod, status, prev, now)
            &&& is_last_of_name(statuses_of(pod), i) ==> mine.len() == told(status, prev).0 + told(
                status,
                prev,
            ).1 + told(status, prev).2
        }),
{
    let metadata = member(Some(pod), "metadata"@);
    let namespace = text_of(member(metadata, "namespace"@));
    let pod_name = text_of(member(metadata, "name"@));
    let items = statuses_of(pod);
    let status = items[i];
    let id = pod_prefix(pod) + status_name(status);
    let prev = find(state, id);
    lemma_pass_about(state, namespace, pod_name, items, now, i);
    lemma_shown_tells(pod, status, prev, now);
    let mine = about(applied(state, event_type, pod, now).events, id);
    let first = shown(namespace, pod_name, status, prev, now);
    assert forall|k: int| 0 <= k < first.len() implies #[trigger] first[k] == mine[k] by {
        assert(mine.take(first.len() as int)[k] == mine[k]);
    }
}

/// A container is tracked as the last entry of its name says.
pub proof fn last_entry_is_tracked(
    state: Seq<(Seq<char>, TrackedContainer)>,
    event_type: Seq<char>,
    pod: Tree,
    now: int,
    i: int,
)
    requires
        event_type != "DELETED"@,
        has_identity(pod),
        is_last_of_name(statuses_of(pod), i),
    ensures
        find(
            applied(state, event_type, pod, now).state,
            pod_prefix(pod) + status_name(statuses_of(pod)[i]),
        ) == Some(
            TrackedContainer {
                running: member(member(Some(statuses_of(pod)[i]), "state"@), "running"@) is Some,
                restart_count: counter_in(statuses_of(pod)[i]) as i64,
            },
        ),
{
    let metadata = member(Some(pod), "metadata"@);
    lemma_pass_ends(
        Watched { state, events: seq![] },
        text_of(member(metadata, "namespace"@)),
        text_of(member(metadata, "name"@)),
        statuses_of(pod),
        now,
        i,
    );
}

proof fn lemma_pass_ends(
    w: Watched,
    namespace: Seq<char>,
    pod: Seq<char>,
    statuses: Seq<Tree>,
    now: int,
    i: int,
)
    requires
        is_last_of_name(statuses, i),
    ensures
        find(
            all_observed(w, namespace, pod, statuses, now).state,
            id_prefix(namespace, pod) + status_name(statuses[i]),
        ) == Some(tracked_of(statuses[i])),
    decreases statuses.len(),
{
    let rest = statuses.drop_last();
    let last = statuses.last();
    let prefix = id_prefix(namespace, pod);
    let before = all_observed(w, namespace, pod, rest, now);
    put_then_find(before.state, prefix + status_name(last), tracked_of(last), prefix + status_name(statuses[i]));
    if i < rest.len() {
        assert(rest[i] == statuses[i]);
        assert(status_name(statuses[statuses.len() - 1]) != status_name(statuses[i]));
        lemma_ids(prefix, status_name(last), status_name(statuses[i]));
        assert forall|j: int| i < j < rest.len() implies status_name(#[trigger] rest[j]) != status_name(
            rest[i],
        ) by {
            assert(rest[j] == statuses[j]);
        }
        lemma_pass_ends(w, namespace, pod, rest, now, i);
    }
}

/// A pod's status says nothing of a container that it does not name: that stays tracked as it was,
/// and nothing is emitted of it. A status without entries changes nothing at all.
pub proof fn unnamed_containers_stay(
    state: Seq<(Seq<char>, TrackedContainer)>,
    event_type: Seq<char>,
    pod: Tree,
    now: int,
    id: Seq<char>,
)
    requires
        event_type != "DELETED"@,
        !is_listed(pod, id),
    ensures
        find(applied(state, event_type, pod, now).state, id) == find(state, id),
        about(applied(state, event_type, pod, now).events, id) == Seq::<Lifecycle>::empty(),
        statuses_of(pod).len() == 0 ==> applied(state, event_type, pod, now) == (Watched { state, events: seq![] }),
{
    let metadata = member(Some(pod), "metadata"@);
    let namespace = text_of(member(metadata, "namespace"@));
    let name = text_of(member(metadata, "name"@));
    let items = statuses_of(pod);
    if has_identity(pod) {
        assert forall|j: int| 0 <= j < items.len() && status_name(#[trigger] items[j]).len() > 0 implies id
            != id_prefix(namespace, name) + status_name(items[j]) by {}
        lemma_pass_spares(Watched { state, events: seq![] }, namespace, name, items, now, id);
    }
    assert(about(seq![], id) =~= Seq::<Lifecycle>::empty());
}

proof fn lemma_pass_spares(
    w: Watched,
    namespace: Seq<char>,
    pod: Seq<char>,
    statuses: Seq<Tree>,
    now: int,
    id: Seq<char>,
)
    requires
        forall|j: int|
            0 <= j < statuses.len() && status_name(#[trigger] statuses[j]).len() > 0 ==> id != id_prefix(
                namespace,
                pod,
            ) + status_name(statuses[j]),
    ensures
        find(all_observed(w, namespace, pod, statuses, now).state, id) == find(w.state, id),
        about(all_observed(w, namespace, pod, statuses, now).events, id) == about(w.events, id),
    decreases statuses.len(),
{
    if statuses.len() > 0 {
        let rest = statuses.drop_last();
        let last = statuses.last();
        let before = all_observed(w, namespace, pod, rest, now);
        let own = id_prefix(namespace, pod) + status_name(last);
        assert forall|j: int| 0 <= j < rest.len() && status_name(#[trigger] rest[j]).len() > 0 implies id
            != id_prefix(namespace, pod) + status_name(rest[j]) by {
            assert(rest[j] == statuses[j]);
        }
        lemma_pass_spares(w, namespace, pod, rest, now, id);
        assert(last == statuses[statuses.len() - 1]);
        if status_name(last).len() > 0 {
            let prev = find(before.state, own);
            let added = shown(namespace, pod, last, prev, now);
            put_then_find(before.state, own, tracked_of(last), id);
            lemma_shown_ids(namespace, pod, last, prev, now);
            lemma_about_none(added, id);
            lemma_about_concat(before.events, added, id);
            assert(about(before.events, id) + Seq::<Lifecycle>::empty() =~= about(before.events, id));
        }
    }
}

/// An event of a pod without a namespace or a name changes nothing.
pub proof fn nameless_pods_are_ignored(
    state: Seq<(Seq<char>, TrackedContainer)>,
    event_type: Seq<char>,
    pod: Tree,
    now: int,
)
    requires
        !has_identity(pod),
    ensures
        applied(state, event_type, pod, now) == (Watched { state, events: seq![] }),
{
}

/// The type of an event matters only in that it is a deletion or not.
pub proof fn additions_are_modifications(
    state: Seq<(Seq<char>, TrackedContainer)>,
    one: Seq<char>,
    other: Seq<char>,
    pod: Tree,
    now: int,
)
    requires
        one != "DELETED"@,
        other != "DELETED"@,
    ensures
        applied(state, one, pod, now) == applied(state, other, pod, now),
{
}

/// What is emitted of a container is emitted.
pub proof fn about_is_emitted(events: Seq<Lifecycle>, id: Seq<char>, k: int) -> (at: int)
    requires
        0 <= k < about(events, id).len(),
    ensures
        k <= at < events.len(),
        events[at] == about(events, id)[k],
        events[at].id == id,
    decreases events.len(),
{
    let rest = events.drop_last();
    if events.last().id == id && k == about(rest, id).len() {
        lemma_about_is_shorter(rest, id);
        events.len() - 1
    } else {
        about_is_emitted(rest, id, k)
    }
}

proof fn lemma_about_is_shorter(events: Seq<Lifecycle>, id: Seq<char>)
    ensures
        about(events, id).len() <= events.len(),
    decreases events.len(),
{
    if events.len() > 0 {
        lemma_about_is_shorter(events.drop_last(), id);
    }
}

/// A container that becomes running is reported as started: it was not tracked as running, and
/// runs now. Entry `i` is the first of its name.
pub proof fn becoming_running_is_reported(
    state: Seq<(Seq<char>, TrackedContainer)>,
    event_type: Seq<char>,
    pod: Tree,
    now: int,
    i: int,
) -> (at: int)
    requires
        event_type != "DELETED"@,
        has_identity(pod),
        is_first_of_name(statuses_of(pod), i),
        member(member(Some(statuses_of(pod)[i]), "state"@), "running"@) is Some,
        !(find(state, pod_prefix(pod) + status_name(statuses_of(pod)[i])) matches Some(p) && p.running),
    ensures
        0 <= at < applied(state, event_type, pod, now).events.len(),
        is_plain_event(
            applied(state, event_type, pod, now).events[at],
            "start"@,
            pod,
            status_name(statuses_of(pod)[i]),
            started_at(statuses_of(pod)[i], now),
        ),
{
    let status = statuses_of(pod)[i];
    let id = pod_prefix(pod) + status_name(status);
    let events = applied(state, event_type, pod, now).events;
    container_is_reported_as_it_changed(state, event_type, pod, now, i);
    let prev = find(state, id);
    let again = prev matches Some(p) && counter_in(status) > p.restart_count;
    let terminated = member(member(Some(status), "state"@), "terminated"@);
    let k: int = if terminated is Some && again {
        if member(terminated, "reason"@) == Some(Tree::Text("OOMKilled"@)) {
            2
        } else {
            1
        }
    } else {
        0
    };
    about_is_emitted(events, id, k)
}

/// A container that stops running is reported as dead: it was tracked as running, and is terminated
/// now. Entry `i` is the first of its name.
pub proof fn terminating_is_reported(
    state: Seq<(Seq<char>, TrackedContainer)>,
    event_type: Seq<char>,
    pod: Tree,
    now: int,
    i: int,
) -> (at: int)
    requires
        event_type != "DELETED"@,
        has_identity(pod),
        is_first_of_name(statuses_of(pod), i),
        member(member(Some(statuses_of(pod)[i]), "state"@), "terminated"@) is Some,
        find(state, pod_prefix(pod) + status_name(statuses_of(pod)[i])) matches Some(p) && p.running,
    ensures
        0 <= at < applied(state, event_type, pod, now).events.len(),
        is_death_event(
            applied(state, event_type, pod, now).events[at],
            "die"@,
            pod,
            status_name(statuses_of(pod)[i]),
            member(member(Some(statuses_of(pod)[i]), "state"@), "terminated"@),
            now,
        ),
{
    let status = statuses_of(pod)[i];
    let id = pod_prefix(pod) + status_name(status);
    let events = applied(state, event_type, pod, now).events;
    container_is_reported_as_it_changed(state, event_type, pod, now, i);
    let again = counter_in(status) > find(state, id)->0.restart_count;
    let terminated = member(member(Some(status), "state"@), "terminated"@);
    let running = member(member(Some(status), "state"@), "running"@) is Some;
    let k: int = (if running || !again {
        0int
    } else {
        2
    }) + if member(terminated, "reason"@) == Some(Tree::Text("OOMKilled"@)) {
        1int
    } else {
        0
    };
    about_is_emitted(events, id, k)
}

/// Entries are taken in order: one more entry at the end adds events of its own container behind
/// those that were emitted before. They tell what the entry says after what the container was
/// tracked as by then, and the container is tracked as the entry says; an entry without a name adds
/// nothing.
pub proof fn entries_are_taken_in_order(
    state: Seq<(Seq<char>, TrackedContainer)>,
    event_type: Seq<char>,
    pod: Tree,
    longer: Tree,
    status: Tree,
    now: int,
)
    requires
        event_type != "DELETED"@,
        has_identity(pod),
        member(Some(longer), "metadata"@) == member(Some(pod), "metadata"@),
        statuses_of(longer) == statuses_of(pod).push(status),
    ensures
        ({
            let before = applied(state, event_type, pod, now).events;
            let after = applied(state, event_type, longer, now).events;
            &&& before.len() <= after.len()
            &&& after.take(before.len() as int) == before
            &&& forall|k: int|
                before.len() <= k < after.len() ==> (#[trigger] after[k]).id == pod_prefix(pod) + status_name(status)
        }),
        ({
            let id = pod_prefix(pod) + status_name(status);
            let held = applied(state, event_type, pod, now);
            let after = applied(state, event_type, longer, now);
            let added = after.events.skip(held.events.len() as int);
            let prev = find(held.state, id);
            &&& status_name(status).len() == 0 ==> added.len() == 0 && after.state == held.state
            &&& status_name(status).len() > 0 ==> {
                &&& tells(added, pod, status, prev, now)
                &&& added.len() == told(status, prev).0 + told(status, prev).1 + told(status, prev).2
                &&& find(after.state, id) == Some(
                    TrackedContainer {
                        running: member(member(Some(status), "state"@), "running"@) is Some,
                        restart_count: counter_in(status) as i64,
                    },
                )
            }
        }),
{
    let metadata = member(Some(pod), "metadata"@);
    let namespace = text_of(member(metadata, "namespace"@));
    let name = text_of(member(metadata, "name"@));
    let w = Watched { state, events: seq![] };
    let items = statuses_of(pod);
    let more = statuses_of(longer);
    assert(more.drop_last() =~= items);
    assert(more.last() == status);
    let held = all_observed(w, namespace, name, items, now);
    let before = applied(state, event_type, pod, now).events;
    let after = applied(state, event_type, longer, now).events;
    assert(before =~= held.events);
    if status_name(status).len() > 0 {
        let prev = find(held.state, id_prefix(namespace, name) + status_name(status));
        let added = shown(namespace, name, status, prev, now);
        lemma_shown_ids(namespace, name, status, prev, now);
        lemma_shown_tells(pod, status, prev, now);
        assert(applied(state, event_type, pod, now).state == held.state);
        put_then_find(
            held.state,
            id_prefix(namespace, name) + status_name(status),
            tracked_of(status),
            id_prefix(namespace, name) + status_name(status),
        );
        assert(after.skip(before.len() as int) =~= added);
        assert forall|k: int| before.len() <= k < after.len() implies (#[trigger] after[k]).id == pod_prefix(pod)
            + status_name(status) by {
            assert(after[k] == added[k - before.len()]);
        }
    }
    assert(after.take(before.len() as int) =~= before);
}

/// A `destroy` says when the pod was seen to be gone and which container it was.
pub proof fn destroy_names_its_container(
    state: Seq<(Seq<char>, TrackedContainer)>,
    pod: Tree,
    now: int,
    i: int,
    container: Seq<char>,
)
    requires
        has_identity(pod),
        0 <= i < applied(state, "DELETED"@, pod, now).events.len(),
        applied(state, "DELETED"@, pod, now).events[i].id == pod_prefix(pod) + container,
        forall|k: int| 0 <= k < container.len() ==> #[trigger] container[k] != '/',
    ensures
        is_plain_event(applied(state, "DELETED"@, pod, now).events[i], "destroy"@, pod, container, now),
{
    let metadata = member(Some(pod), "metadata"@);
    let namespace = text_of(member(metadata, "namespace"@));
    let name = text_of(member(metadata, "name"@));
    reveal_strlit("/");
    let head = namespace + "/"@ + name;
    assert(pod_prefix(pod) =~= head.push('/'));
    tail_follows_the_last(head, '/', container);
    let base = base_entries(namespace, name, container);
    assert(base.take(3) =~= base);
    lemma_base_entries(namespace, name, container, base);
}

// ── Building events ──────────────────────────────────────────────────────────

/// Puts an attribute under a key, in place of what was under it.
fn attach(attributes: &mut StringMap<String>, key: &str, value: &str)
    ensures
        viewed(final(attributes)@) == put(viewed(old(attributes)@), key@, value@),
{
    let kept_value: String = value.to_owned();
    proof {
        put_then_viewed(attributes@, key@, kept_value);
    }
    attributes.insert(key.to_owned(), kept_value);
}

/// The attributes that every event carries.
pub fn base_attributes(namespace: &str, pod: &str, container: &str) -> (r: StringMap<String>)
    ensures
        viewed(r@) == base_entries(namespace@, pod@, container@),
{
    let mut r: StringMap<String> = StringMap::new();
    assert(viewed(r@) =~= Seq::<(Seq<char>, Seq<char>)>::empty());
    attach(&mut r, "name", container);
    let ghost one = viewed(r@);
    assert(one =~= seq![("name"@, container@)]);
    attach(&mut r, "namespace", namespace);
    let ghost two = viewed(r@);
    proof {
        reveal_strlit("name");
        reveal_strlit("namespace");
        reveal_strlit("pod");
        assert("name"@.len() == 4 && "namespace"@.len() == 9 && "pod"@.len() == 3);
        lemma_put_new(one, "namespace"@, namespace@);
    }
    attach(&mut r, "pod", pod);
    proof {
        lemma_put_new(two, "pod"@, pod@);
        assert(viewed(r@) =~= base_entries(namespace@, pod@, container@));
    }
    r
}

/// Under a new key a value goes to the end.
proof fn lemma_put_new<V>(s: Seq<(Seq<char>, V)>, key: Seq<char>, value: V)
    requires
        forall|i: int| 0 <= i < s.len() ==> (#[trigger] s[i]).0 != key,
    ensures
        put(s, key, value) == s.push((key, value)),
    decreases s.len(),
{
    if s.len() == 0 {
        assert(put(s, key, value) =~= s.push((key, value)));
    } else {
        let rest = s.drop_first();
        assert forall|i: int| 0 <= i < rest.len() implies (#[trigger] rest[i]).0 != key by {
            assert(s[i + 1].0 != key);
        }
        lemma_put_new(rest, key, value);
        assert(s[0].0 != key);
        assert(put(s, key, value) =~= s.push((key, value)));
    }
}

/// The event that says `action` of the container `id`.
pub fn event(action: &'static str, id: &str, attributes: StringMap<String>, time: i64) -> (r: AgentEvent)
    ensures
        marked(r),
        r.action == action,
        r@ == (Lifecycle { action: action@, id: id@, attributes: viewed(attributes@), time: time as int }),
{
    AgentEvent {
        typ: "container",
        action,
        orchestrator: "kubernetes",
        actor: Actor { id: id.to_owned(), attributes },
        time,
    }
}

/// The attributes of a death.
fn death_attributes(namespace: &str, pod: &str, container: &str, terminated: Option<&Json>) -> (r: StringMap<
    String,
>)
    ensures
        viewed(r@) == death_entries(namespace@, pod@, container@, node_of(terminated)),
{
    let mut r: StringMap<String> = base_attributes(namespace, pod, container);
    let ghost base = viewed(r@);
    proof {
        reveal_strlit("name");
        reveal_strlit("namespace");
        reveal_strlit("pod");
        reveal_strlit("exitCode");
        reveal_strlit("reason");
        assert("name"@.len() == 4 && "namespace"@.len() == 9 && "pod"@.len() == 3);
        assert("exitCode"@.len() == 8 && "reason"@.len() == 6);
    }
    if let Some(code) = as_integer(get(terminated, "exitCode")) {
        attach(&mut r, "exitCode", show_signed(code).as_str());
        proof {
            lemma_put_new(base, "exitCode"@, signed_text(code as int));
        }
    }
    let ghost coded = viewed(r@);
    let reason: &str = text_or_empty(get(terminated, "reason"));
    if reason.unicode_len() > 0 {
        attach(&mut r, "reason", reason);
        proof {
            lemma_put_new(coded, "reason"@, reason@);
        }
    }
    r
}

// ── The JSON form ────────────────────────────────────────────────────────────

/// Attributes as JSON members.
pub open spec fn attribute_members(attributes: Seq<(Seq<char>, Seq<char>)>) -> Seq<(Seq<char>, Tree)> {
    Seq::new(attributes.len(), |i: int| (attributes[i].0, Tree::Text(attributes[i].1)))
}

/// The JSON object of an event, in the shape of a Docker event.
pub open spec fn event_payload(typ: Seq<char>, orchestrator: Seq<char>, e: Lifecycle) -> Tree {
    Tree::Object(
        seq![
            ("Type"@, Tree::Text(typ)),
            ("Action"@, Tree::Text(e.action)),
            ("orchestrator"@, Tree::Text(orchestrator)),
            (
                "Actor"@,
                Tree::Object(
                    seq![
                        ("ID"@, Tree::Text(e.id)),
                        ("Attributes"@, Tree::Object(attribute_members(e.attributes))),
                    ],
                ),
            ),
            ("time"@, Tree::Number(e.time)),
        ],
    )
}

impl Lifecycle {
    /// The JSON object of an event with the two fixed markers.
    pub open spec fn payload(self) -> Tree {
        event_payload("container"@, "kubernetes"@, self)
    }
}

/// Every event payload carries the orchestrator.
pub proof fn event_payload_carries_the_orchestrator(e: Lifecycle)
    ensures
        member(Some(e.payload()), "orchestrator"@) == Some(Tree::Text("kubernetes"@)),
{
    reveal_strlit("Type");
    reveal_strlit("Action");
    reveal_strlit("orchestrator");
    assert("Type"@.len() == 4 && "Action"@.len() == 6 && "orchestrator"@.len() == 12);
    first_entry_is_found(e.payload()->Object_0, "orchestrator"@, 2);
}

/// The payload of an event has the shape of a Docker event: what happened to which container and
/// when, and each attribute under its name.
pub proof fn event_payload_says_what_happened(e: Lifecycle, key: Seq<char>)
    ensures
        ({
            let actor = member(Some(e.payload()), "Actor"@);
            &&& member(Some(e.payload()), "Type"@) == Some(Tree::Text("container"@))
            &&& member(Some(e.payload()), "Action"@) == Some(Tree::Text(e.action))
            &&& member(Some(e.payload()), "time"@) == Some(Tree::Number(e.time))
            &&& member(actor, "ID"@) == Some(Tree::Text(e.id))
            &&& member(member(actor, "Attributes"@), key) == match find(e.attributes, key) {
                Some(text) => Some(Tree::Text(text)),
                None => None,
            }
        }),
{
    reveal_strlit("Type");
    reveal_strlit("Action");
    reveal_strlit("orchestrator");
    reveal_strlit("Actor");
    reveal_strlit("time");
    reveal_strlit("ID");
    reveal_strlit("Attributes");
    assert("Type"@.len() == 4 && "Action"@.len() == 6 && "orchestrator"@.len() == 12 && "Actor"@.len() == 5 && "time"@.len() == 4 && "ID"@.len() == 2 && "Attributes"@.len() == 10);
    assert("Type"@[0] == 'T' && "time"@[0] == 't');
    let all = e.payload()->Object_0;
    first_entry_is_found(all, "Type"@, 0);
    first_entry_is_found(all, "Action"@, 1);
    first_entry_is_found(all, "Actor"@, 3);
    first_entry_is_found(all, "time"@, 4);
    let actor = all[3].1->Object_0;
    first_entry_is_found(actor, "ID"@, 0);
    first_entry_is_found(actor, "Attributes"@, 1);
    lemma_attribute_members(e.attributes, key);
}

proof fn lemma_attribute_members(attributes: Seq<(Seq<char>, Seq<char>)>, key: Seq<char>)
    ensures
        find(attribute_members(attributes), key) == match find(attributes, key) {
            Some(text) => Some(Tree::Text(text)),
            None => None,
        },
    decreases attributes.len(),
{
    if attributes.len() > 0 {
        lemma_attribute_members(attributes.drop_first(), key);
        assert(attribute_members(attributes).drop_first() =~= attribute_members(attributes.drop_first()));
    }
}

/// A marked event is sent as one of a container and of Kubernetes.
pub proof fn marked_events_are_of_kubernetes(e: AgentEvent)
    requires
        marked(e),
    ensures
        member(Some(event_payload(e.typ@, e.orchestrator@, e@)), "Type"@) == Some(Tree::Text("container"@)),
        member(Some(event_payload(e.typ@, e.orchestrator@, e@)), "orchestrator"@) == Some(Tree::Text("kubernetes"@)),
{
    event_payload_carries_the_orchestrator(e@);
    event_payload_says_what_happened(e@, "name"@);
}

impl Actor {
    fn attributes_json(&self) -> (r: Json)
        ensures
            r@ == Tree::Object(attribute_members(viewed(self.attributes@))),
    {
        let mut m: Vec<(String, Json)> = Vec::new();
        let ghost goal = attribute_members(viewed(self.attributes@));
        let mut i: usize = 0;
        assert(members_of(m@) =~= goal.take(0));
        while i < self.attributes.len()
            invariant
                i <= self.attributes@.len(),
                goal == attribute_members(viewed(self.attributes@)),
                members_of(m@) == goal.take(i as int),
            decreases self.attributes@.len() - i,
        {
            add_text(&mut m, self.attributes.key_at(i).as_str(), self.attributes.value_at(i).as_str());
            assert(goal.take(i + 1) =~= goal.take(i as int).push(goal[i as int]));
            i = i + 1;
        }
        assert(goal.take(goal.len() as int) =~= goal);
        object(m)
    }

    fn to_json(&self) -> (r: Json)
        ensures
            r@ == Tree::Object(
                seq![
                    ("ID"@, Tree::Text(self.id@)),
                    ("Attributes"@, Tree::Object(attribute_members(viewed(self.attributes@)))),
                ],
            ),
    {
        let mut m: Vec<(String, Json)> = Vec::new();
        add_text(&mut m, "ID", self.id.as_str());
        add_member(&mut m, "Attributes", self.attributes_json());
        assert(members_of(m@) =~= seq![
            ("ID"@, Tree::Text(self.id@)),
            ("Attributes"@, Tree::Object(attribute_members(viewed(self.attributes@)))),
        ]);
        object(m)
    }
}

impl AgentEvent {
    /// The JSON object.
    pub fn to_json(&self) -> (r: Json)
        ensures
            r@ == event_payload(self.typ@, self.orchestrator@, self@),
            marked(*self) ==> r@ == self@.payload(),
    {
        let mut m: Vec<(String, Json)> = Vec::new();
        add_text(&mut m, "Type", self.typ);
        add_text(&mut m, "Action", self.action);
        add_text(&mut m, "orchestrator", self.orchestrator);
        add_member(&mut m, "Actor", self.actor.to_json());
        add_member(&mut m, "time", Json::Int(self.time));
        let r: Json = object(m);
        assert(r@->Object_0 =~= event_payload(self.typ@, self.orchestrator@, self@)->Object_0);
        r
    }
}

// ── Applying a watch event ───────────────────────────────────────────────────

fn push_event(out: &mut Vec<AgentEvent>, e: AgentEvent)
    requires
        all_marked(old(out)@),
        marked(e),
    ensures
        all_marked(final(out)@),
        lifecycles(final(out)@) == lifecycles(old(out)@).push(e@),
{
    out.push(e);
    assert(lifecycles(out@) =~= lifecycles(old(out)@).push(e@));
}

fn restart_count(status: &Json) -> (r: i64)
    ensures
        r == tracked_of(status@).restart_count,
{
    match as_integer(get(Some(status), "restartCount")) {
        Some(n) => n,
        None => 0,
    }
}

fn observe_death(
    out: &mut Vec<AgentEvent>,
    namespace: &str,
    pod: &str,
    id: &str,
    status: &Json,
    prev: Option<TrackedContainer>,
    now: i64,
)
    requires
        all_marked(old(out)@),
        id@ == id_prefix(namespace@, pod@) + text_of(member(Some(status@), "name"@)),
    ensures
        all_marked(final(out)@),
        lifecycles(final(out)@) == lifecycles(old(out)@) + deaths(namespace@, pod@, status@, prev, now as int),
{
    let ghost before = lifecycles(out@);
    let terminated: Option<&Json> = get(get(Some(status), "state"), "terminated");
    let count: i64 = restart_count(status);
    let due: bool = match prev {
        Some(p) => p.running || count > p.restart_count,
        None => false,
    };
    if terminated.is_some() && due {
        let container: &str = text_or_empty(get(Some(status), "name"));
        let reason: &str = text_or_empty(get(terminated, "reason"));
        let time: i64 = ts_or(now, as_text(get(terminated, "finishedAt")));
        if same(reason, "OOMKilled") {
            push_event(out, event("oom", id, death_attributes(namespace, pod, container, terminated), time));
        }
        push_event(out, event("die", id, death_attributes(namespace, pod, container, terminated), time));
    }
    assert(lifecycles(out@) =~= before + deaths(namespace@, pod@, status@, prev, now as int));
}

fn observe_restart(
    out: &mut Vec<AgentEvent>,
    namespace: &str,
    pod: &str,
    id: &str,
    status: &Json,
    prev: Option<TrackedContainer>,
    now: i64,
)
    requires
        all_marked(old(out)@),
        id@ == id_prefix(namespace@, pod@) + text_of(member(Some(status@), "name"@)),
    ensures
        all_marked(final(out)@),
        lifecycles(final(out)@) == lifecycles(old(out)@) + restarts(namespace@, pod@, status@, prev, now as int),
{
    let ghost before = lifecycles(out@);
    let count: i64 = restart_count(status);
    let missed: bool = match prev {
        Some(p) => p.running && count > p.restart_count,
        None => false,
    };
    if missed {
        let container: &str = text_or_empty(get(Some(status), "name"));
        push_event(out, event("die", id, base_attributes(namespace, pod, container), now));
        push_event(out, start_event(namespace, pod, id, status, now));
    }
    assert(lifecycles(out@) =~= before + restarts(namespace@, pod@, status@, prev, now as int));
}

fn start_event(namespace: &str, pod: &str, id: &str, status: &Json, now: i64) -> (r: AgentEvent)
    requires
        id@ == id_prefix(namespace@, pod@) + text_of(member(Some(status@), "name"@)),
    ensures
        marked(r),
        r@ == start_of(namespace@, pod@, status@, now as int),
{
    let container: &str = text_or_empty(get(Some(status), "name"));
    let running: Option<&Json> = get(get(Some(status), "state"), "running");
    let time: i64 = ts_or(now, as_text(get(running, "startedAt")));
    event("start", id, base_attributes(namespace, pod, container), time)
}

fn observe_start(
    out: &mut Vec<AgentEvent>,
    namespace: &str,
    pod: &str,
    id: &str,
    status: &Json,
    prev: Option<TrackedContainer>,
    now: i64,
)
    requires
        all_marked(old(out)@),
        id@ == id_prefix(namespace@, pod@) + text_of(member(Some(status@), "name"@)),
    ensures
        all_marked(final(out)@),
        lifecycles(final(out)@) == lifecycles(old(out)@) + starts(namespace@, pod@, status@, prev, now as int),
{
    let ghost before = lifecycles(out@);
    let ran: bool = match prev {
        Some(p) => p.running,
        None => false,
    };
    if get(get(Some(status), "state"), "running").is_some() && !ran {
        push_event(out, start_event(namespace, pod, id, status, now));
    }
    assert(lifecycles(out@) =~= before + starts(namespace@, pod@, status@, prev, now as int));
}

fn observe(
    state: &mut WatchState,
    out: &mut Vec<AgentEvent>,
    namespace: &str,
    pod: &str,
    status: &Json,
    now: i64,
)
    requires
        all_marked(old(out)@),
    ensures
        all_marked(final(out)@),
        (Watched { state: final(state)@, events: lifecycles(final(out)@) }) == observed(
            Watched { state: old(state)@, events: lifecycles(old(out)@) },
            namespace@,
            pod@,
            status@,
            now as int,
        ),
{
    let container: &str = text_or_empty(get(Some(status), "name"));
    if container.unicode_len() == 0 {
        return;
    }
    let id: String = joined(container_prefix(namespace, pod).as_str(), container);
    let prev: Option<TrackedContainer> = match state.get(id.as_str()) {
        Some(p) => Some(*p),
        None => None,
    };
    let ghost before = lifecycles(out@);
    let running: bool = get(get(Some(status), "state"), "running").is_some();
    if running {
        observe_death(out, namespace, pod, id.as_str(), status, prev, now);
        observe_restart(out, namespace, pod, id.as_str(), status, prev, now);
        observe_start(out, namespace, pod, id.as_str(), status, prev, now);
    } else {
        observe_restart(out, namespace, pod, id.as_str(), status, prev, now);
        observe_death(out, namespace, pod, id.as_str(), status, prev, now);
    }
    assert(lifecycles(out@) =~= before + shown(namespace@, pod@, status@, prev, now as int));
    state.insert(id, TrackedContainer { running, restart_count: restart_count(status) });
}

/// Where the ids of a pod's containers begin: `"{namespace}/{pod}/"`.
pub fn container_prefix(namespace: &str, pod: &str) -> (r: String)
    ensures
        r@ == id_prefix(namespace@, pod@),
{
    let mut r: String = joined(namespace, "/");
    r.append(pod);
    r.append("/");
    r
}

fn destroy(state: &mut WatchState, namespace: &str, pod: &str, now: i64) -> (r: Vec<AgentEvent>)
    ensures
        all_marked(r@),
        ids_differ(lifecycles(r@)),
        (Watched { state: final(state)@, events: lifecycles(r@) }) == destroyed(
            old(state)@,
            namespace@,
            pod@,
            now as int,
        ),
{
    let ghost goal = destroyed(state@, namespace@, pod@, now as int).events;
    let ids: Vec<String> = state.remove_prefixed(container_prefix(namespace, pod).as_str());
    let mut out: Vec<AgentEvent> = Vec::new();
    let mut i: usize = 0;
    assert(lifecycles(out@) =~= goal.take(0));
    while i < ids.len()
        invariant
            i <= ids.len(),
            ids@.len() == goal.len(),
            all_marked(out@),
            lifecycles(out@) == goal.take(i as int),
            forall|j: int|
                0 <= j < goal.len() ==> #[trigger] goal[j] == (Lifecycle {
                    action: "destroy"@,
                    id: ids@[j]@,
                    attributes: base_entries(namespace@, pod@, after_last(ids@[j]@, '/')),
                    time: now as int,
                }),
        decreases ids.len() - i,
    {
        let id: &str = ids[i].as_str();
        let attributes: StringMap<String> = base_attributes(namespace, pod, tail_after(id, '/'));
        push_event(&mut out, event("destroy", id, attributes, now));
        assert(goal.take(i + 1) =~= goal.take(i as int).push(goal[i as int]));
        i = i + 1;
    }
    assert(goal.take(goal.len() as int) =~= goal);
    out
}

/// Applies one watch event (`{"type": "...", "object": <Pod>}`) to `state` and returns the
/// lifecycle events to forward.
///
/// `now` is the fallback timestamp (unix seconds) for events whose pod status carries no usable
/// timestamp.
pub fn diff_watch_event(state: &mut WatchState, event_type: &str, pod: &Json, now: i64) -> (r: Vec<
    AgentEvent,
>)
    ensures
        all_marked(r@),
        (Watched { state: final(state)@, events: lifecycles(r@) }) == applied(
            old(state)@,
            event_type@,
            pod@,
            now as int,
        ),
        distinct(final(state)@),
        event_type@ == "DELETED"@ ==> ids_differ(lifecycles(r@)),
{
    proof {
        use_type_invariant(&*state);
        tracked_ids_stay_distinct(state@, event_type@, pod@, now as int);
    }
    let metadata: Option<&Json> = get(Some(pod), "metadata");
    let namespace: &str = text_or_empty(get(metadata, "namespace"));
    let name: &str = text_or_empty(get(metadata, "name"));
    let mut out: Vec<AgentEvent> = Vec::new();
    assert(lifecycles(out@) =~= seq![]);
    if namespace.unicode_len() == 0 || name.unicode_len() == 0 {
        return out;
    }
    if same(event_type, "DELETED") {
        return destroy(state, namespace, name, now);
    }
    match as_items(get(get(Some(pod), "status"), "containerStatuses")) {
        Some(statuses) => {
            let ghost before = Watched { state: state@, events: seq![] };
            let ghost items = items_of(member(member(Some(pod@), "status"@), "containerStatuses"@))->0;
            let mut i: usize = 0;
            while i < statuses.len()
                invariant
                    i <= statuses.len(),
                    items.len() == statuses@.len(),
                    forall|j: int| 0 <= j < items.len() ==> #[trigger] items[j] == statuses@[j]@,
                    all_marked(out@),
                    (Watched { state: state@, events: lifecycles(out@) }) == all_observed(
                        before,
                        namespace@,
                        name@,
                        items.take(i as int),
                        now as int,
                    ),
                decreases statuses.len() - i,
            {
                observe(state, &mut out, namespace, name, &statuses[i], now);
                proof {
                    assert(items.take(i + 1).drop_last() =~= items.take(i as int));
                    assert(items.take(i + 1).last() == items[i as int]);
                }
                i = i + 1;
            }
            assert(items.take(items.len() as int) =~= items);
            out
        },
        None => out,
    }
}

} // verus!
