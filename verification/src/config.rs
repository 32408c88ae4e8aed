//! Environment-driven configuration for the agent.
//!
//! All settings are read from environment variables at startup. Unset or invalid variables fall
//! back to the documented defaults.

use vstd::prelude::*;

use crate::keyed::{find, viewed, viewed_then_find, StringMap};
use crate::text::{
    all_white, bare_text_is_trimmed, chars_of, decimal_text, ends_are_taken_off, ends_with, is_white, joined, lowered,
    lowers_to, numbers_are_read, parse_unsigned, same, strip_suffix, surrounding_white_space_is_trimmed, trim, trim_end,
    trimmed, unsigned_value, white_space_is_trimmed_away, without_end,
};

verus! {

/// Requested agent mode (`AGENT_MODE` env). `Auto` resolves at startup based on the environment
/// the agent runs in; see [`crate::detect`].
#[derive(Debug, Clone, Copy, PartialEq, Eq, Structural)]
pub enum AgentMode {
    /// Detect the orchestrator automatically (default).
    Auto,
    /// Force the Docker Engine provider (Swarm or standalone).
    Docker,
    /// Force the Kubernetes provider (k3s or any conformant cluster).
    Kubernetes,
}

/// How container and node statistics are fetched in Kubernetes mode (`AGENT_KUBELET_MODE` env).
#[derive(Debug, Clone, Copy, PartialEq, Eq, Structural)]
pub enum KubeletMode {
    /// Query the kubelet Summary API directly on `https://<hostIP>:10250`. Falls back to `Proxy`
    /// when the direct call fails.
    Direct,
    /// Always go through the API server proxy (`/api/v1/nodes/{node}/proxy/stats/summary`).
    Proxy,
}

/// Runtime configuration loaded from environment variables.
#[derive(Debug, Clone)]
pub struct Config {
    /// Requested orchestrator mode. `AGENT_MODE` env, default `auto`.
    pub agent_mode: AgentMode,
    /// Seconds between container statistics (minimum 1). `STATS_FREQUENCY` env, default 30.
    pub stats_frequency: u64,
    /// URL of the `/events` endpoint. `EVENT_ENDPOINT` env.
    pub event_endpoint: String,
    /// URL polled until the application is ready. `HEALTH_CHECK_ENDPOINT` env.
    pub health_check_endpoint: String,
    /// When `true`, log each forwarded event at `DEBUG` level. `DEBUG_EVENT` env.
    pub debug_event: bool,
    /// When `true`, log each stats payload at `DEBUG` level. `DEBUG_STATS` env.
    pub debug_stats: bool,
    /// Maximum number of concurrent `docker stats` calls per tick (Docker mode only).
    /// `STATS_MAX_CONCURRENCY` env, default 32, clamped to 1–512.
    pub stats_max_concurrency: usize,
    /// Kubernetes node this agent runs on. `NODE_NAME` env (Downward API,
    /// `fieldRef: spec.nodeName`). Required in Kubernetes mode.
    pub node_name: Option<String>,
    /// Host IP of the node for direct kubelet access. `NODE_IP` env (Downward API,
    /// `fieldRef: status.hostIP`). Resolved from the Node object when unset.
    pub node_ip: Option<String>,
    /// Skip TLS verification when talking to the kubelet directly (k3s uses a self-signed serving
    /// certificate). `AGENT_KUBELET_INSECURE_TLS` env, default `true`.
    pub kubelet_insecure_tls: bool,
    /// Kubelet access mode. `AGENT_KUBELET_MODE` env (`direct` or `proxy`), default `direct`.
    pub kubelet_mode: KubeletMode,
    /// Shared secret sent as `X-Agent-Token` on every request to the application.
    /// `SWARMAGENT_SHARED_SECRET` env. Unset means no token is sent.
    pub shared_secret: Option<String>,
}

// ── What the variables say ───────────────────────────────────────────────────

/// The variables of an environment.
pub type Variables = Seq<(Seq<char>, Seq<char>)>;

/// What a [`Config`] says.
pub struct Settings {
    pub agent_mode: AgentMode,
    pub stats_frequency: int,
    pub event_endpoint: Seq<char>,
    pub health_check_endpoint: Seq<char>,
    pub debug_event: bool,
    pub debug_stats: bool,
    pub stats_max_concurrency: int,
    pub node_name: Option<Seq<char>>,
    pub node_ip: Option<Seq<char>>,
    pub kubelet_insecure_tls: bool,
    pub kubelet_mode: KubeletMode,
    pub shared_secret: Option<Seq<char>>,
}

impl View for Config {
    type V = Settings;

    open spec fn view(&self) -> Settings {
        Settings {
            agent_mode: self.agent_mode,
            stats_frequency: self.stats_frequency as int,
            event_endpoint: self.event_endpoint@,
            health_check_endpoint: self.health_check_endpoint@,
            debug_event: self.debug_event,
            debug_stats: self.debug_stats,
            stats_max_concurrency: self.stats_max_concurrency as int,
            node_name: chars_of(self.node_name),
            node_ip: chars_of(self.node_ip),
            kubelet_insecure_tls: self.kubelet_insecure_tls,
            kubelet_mode: self.kubelet_mode,
            shared_secret: chars_of(self.shared_secret),
        }
    }
}

/// A variable's text, or a default where it is unset or empty.
pub open spec fn text_setting(vars: Variables, key: Seq<char>, default: Seq<char>) -> Seq<char> {
    match find(vars, key) {
        Some(v) => if v.len() > 0 {
            v
        } else {
            default
        },
        None => default,
    }
}

/// A variable's text without the white space around it, where that leaves anything.
pub open spec fn present(value: Option<Seq<char>>) -> Option<Seq<char>> {
    match value {
        Some(v) => if trimmed(v).len() > 0 {
            Some(trimmed(v))
        } else {
            None
        },
        None => None,
    }
}

/// A variable that is `true` or `false`, or a default.
pub open spec fn flag_setting(vars: Variables, key: Seq<char>, default: bool) -> bool {
    match find(vars, key) {
        Some(v) => if v == "true"@ {
            true
        } else if v == "false"@ {
            false
        } else {
            default
        },
        None => default,
    }
}

/// A variable that is a number of at most `max`, or a default.
pub open spec fn number_setting(vars: Variables, key: Seq<char>, default: int, max: nat) -> int {
    match find(vars, key) {
        Some(v) => match unsigned_value(v, max) {
            Some(n) => n as int,
            None => default,
        },
        None => default,
    }
}

/// The mode that a text asks for; case and white space around it do not matter.
pub open spec fn agent_mode_of(raw: Seq<char>) -> AgentMode {
    let word = lowered(trimmed(raw));
    if word == "docker"@ || word == "swarm"@ {
        AgentMode::Docker
    } else if word == "kubernetes"@ || word == "k8s"@ || word == "k3s"@ {
        AgentMode::Kubernetes
    } else {
        AgentMode::Auto
    }
}

/// The kubelet access that a text asks for; case and white space around it do not matter.
pub open spec fn kubelet_mode_of(raw: Seq<char>) -> KubeletMode {
    if lowered(trimmed(raw)) == "proxy"@ {
        KubeletMode::Proxy
    } else {
        KubeletMode::Direct
    }
}

/// The base URL that a variable gives, empty where none does.
pub open spec fn stated_base(vars: Variables) -> Seq<char> {
    text_setting(
        vars,
        "SWARMBOT_URL"@,
        text_setting(vars, "SW4RM_BOT_URL"@, text_setting(vars, "SWARMBOTY_URL"@, ""@)),
    )
}

/// The base URL of the application, without the slashes that it may end with: the stated one, else
/// what comes before `/events` in the events URL.
pub open spec fn base_of(vars: Variables) -> Seq<char> {
    let stated = stated_base(vars);
    let event = text_setting(vars, "EVENT_ENDPOINT"@, "http://app:8080/events"@);
    let base = if stated.len() > 0 {
        stated
    } else if ends_with(event, "/events"@) {
        event.take(event.len() - "/events"@.len())
    } else {
        event
    };
    without_end(base, '/')
}

/// `n`, or the nearer of two bounds where it is outside them.
pub open spec fn clamped(n: int, low: int, high: int) -> int {
    if n < low {
        low
    } else if n > high {
        high
    } else {
        n
    }
}

/// The settings that an environment gives.
pub open spec fn settings_of(vars: Variables) -> Settings {
    let base = base_of(vars);
    let frequency = number_setting(vars, "STATS_FREQUENCY"@, 30, u64::MAX as nat);
    Settings {
        agent_mode: agent_mode_of(text_setting(vars, "AGENT_MODE"@, "auto"@)),
        stats_frequency: if frequency < 1 {
            1
        } else {
            frequency
        },
        event_endpoint: text_setting(vars, "EVENT_ENDPOINT"@, base + "/events"@),
        health_check_endpoint: text_setting(vars, "HEALTH_CHECK_ENDPOINT"@, base + "/version"@),
        debug_event: flag_setting(vars, "DEBUG_EVENT"@, false),
        debug_stats: flag_setting(vars, "DEBUG_STATS"@, false),
        stats_max_concurrency: clamped(
            number_setting(vars, "STATS_MAX_CONCURRENCY"@, 32, usize::MAX as nat),
            1,
            512,
        ),
        node_name: present(find(vars, "NODE_NAME"@)),
        node_ip: present(find(vars, "NODE_IP"@)),
        kubelet_insecure_tls: flag_setting(vars, "AGENT_KUBELET_INSECURE_TLS"@, true),
        kubelet_mode: kubelet_mode_of(text_setting(vars, "AGENT_KUBELET_MODE"@, "direct"@)),
        shared_secret: present(find(vars, "SWARMAGENT_SHARED_SECRET"@)),
    }
}

// ── Laws ─────────────────────────────────────────────────────────────────────

/// Whatever the environment says, samples are at least a second apart and between 1 and 512
/// containers are sampled at a time.
pub proof fn limits_hold(vars: Variables)
    ensures
        settings_of(vars).stats_frequency >= 1,
        1 <= settings_of(vars).stats_max_concurrency <= 512,
{
}

/// Where only a base URL is given, `/events` and `/version` are derived from it, whether or not it
/// ends with slashes.
pub proof fn endpoints_follow_the_base(vars: Variables)
    requires
        text_setting(vars, "EVENT_ENDPOINT"@, ""@) == ""@,
        text_setting(vars, "HEALTH_CHECK_ENDPOINT"@, ""@) == ""@,
        stated_base(vars).len() > 0,
    ensures
        settings_of(vars).event_endpoint == without_end(stated_base(vars), '/') + "/events"@,
        settings_of(vars).health_check_endpoint == without_end(stated_base(vars), '/') + "/version"@,
{
    reveal_strlit("");
}

/// Where an events URL is given, it is used as it stands, whatever the base URL.
pub proof fn stated_events_url_wins(vars: Variables, url: Seq<char>)
    requires
        find(vars, "EVENT_ENDPOINT"@) == Some(url),
        url.len() > 0,
    ensures
        settings_of(vars).event_endpoint == url,
{
}

/// The debug flags are on where their variables are `true`, and off otherwise; TLS verification is
/// skipped unless its variable is `false`.
pub proof fn flags_are_what_the_variables_say(vars: Variables)
    ensures
        settings_of(vars).debug_event == (find(vars, "DEBUG_EVENT"@) == Some("true"@)),
        settings_of(vars).debug_stats == (find(vars, "DEBUG_STATS"@) == Some("true"@)),
        settings_of(vars).kubelet_insecure_tls == (find(vars, "AGENT_KUBELET_INSECURE_TLS"@) != Some("false"@)),
{
    reveal_strlit("true");
    reveal_strlit("false");
    assert("true"@.len() == 4 && "false"@.len() == 5);
}

/// The mode is the one that `AGENT_MODE` names, whatever its case and the white space around it;
/// anything else, and nothing, leaves it to detection.
pub proof fn mode_is_what_the_variable_names(vars: Variables, raw: Seq<char>)
    ensures
        ({
            let word = lowered(trimmed(raw));
            let mode = settings_of(vars).agent_mode;
            &&& find(vars, "AGENT_MODE"@) == Some(raw) ==> {
                &&& mode == AgentMode::Docker <==> word == "docker"@ || word == "swarm"@
                &&& mode == AgentMode::Kubernetes <==> word == "kubernetes"@ || word == "k8s"@ || word == "k3s"@
            }
            &&& find(vars, "AGENT_MODE"@) is None ==> mode == AgentMode::Auto
        }),
{
    lemma_words();
    let none: Seq<char> = seq![];
    assert("auto"@.len() > 0);
    bare_text_is_trimmed("auto"@);
    assert(lowered("auto"@) =~= "auto"@);
    white_space_is_trimmed_away(none);
    if raw.len() == 0 {
        assert(raw =~= none);
        assert(lowered(trimmed(raw)).len() == 0);
    }
}

/// The kubelet is asked through the proxy where `AGENT_KUBELET_MODE` says so, whatever its case and
/// the white space around it, and directly otherwise.
pub proof fn kubelet_is_asked_as_the_variable_says(vars: Variables, raw: Seq<char>)
    ensures
        find(vars, "AGENT_KUBELET_MODE"@) == Some(raw) ==> (settings_of(vars).kubelet_mode == KubeletMode::Proxy
            <==> lowered(trimmed(raw)) == "proxy"@),
        find(vars, "AGENT_KUBELET_MODE"@) is None ==> settings_of(vars).kubelet_mode == KubeletMode::Direct,
{
    lemma_words();
    let none: Seq<char> = seq![];
    bare_text_is_trimmed("direct"@);
    assert(lowered("direct"@) =~= "direct"@);
    white_space_is_trimmed_away(none);
    if raw.len() == 0 {
        assert(raw =~= none);
        assert(lowered(trimmed(raw)).len() == 0);
    }
}

proof fn lemma_words()
    ensures
        "auto"@ == seq!['a', 'u', 't', 'o'],
        "direct"@ == seq!['d', 'i', 'r', 'e', 'c', 't'],
        "proxy"@.len() == 5,
        "docker"@.len() == 6,
        "swarm"@.len() == 5,
        "kubernetes"@.len() == 10,
        "k8s"@.len() == 3,
        "k3s"@.len() == 3,
        "docker"@ != "kubernetes"@,
        "docker"@[0] == 'd',
{
    reveal_strlit("auto");
    reveal_strlit("direct");
    reveal_strlit("proxy");
    reveal_strlit("docker");
    reveal_strlit("swarm");
    reveal_strlit("kubernetes");
    reveal_strlit("k8s");
    reveal_strlit("k3s");
    assert("auto"@ =~= seq!['a', 'u', 't', 'o']);
    assert("direct"@ =~= seq!['d', 'i', 'r', 'e', 'c', 't']);
    assert("docker"@.len() == 6 && "kubernetes"@.len() == 10);
}

/// Samples are as many seconds apart as `STATS_FREQUENCY` says, at least one, and 30 where it says
/// nothing or is no number.
pub proof fn frequency_is_what_the_variable_says(vars: Variables, n: nat, raw: Seq<char>, i: int)
    ensures
        find(vars, "STATS_FREQUENCY"@) == Some(decimal_text(n)) && 1 <= n <= u64::MAX
            ==> settings_of(vars).stats_frequency == n,
        find(vars, "STATS_FREQUENCY"@) == Some(decimal_text(0)) ==> settings_of(vars).stats_frequency == 1,
        find(vars, "STATS_FREQUENCY"@) == Some(decimal_text(n)) && n > u64::MAX
            ==> settings_of(vars).stats_frequency == 30,
        find(vars, "STATS_FREQUENCY"@) is None ==> settings_of(vars).stats_frequency == 30,
        find(vars, "STATS_FREQUENCY"@) == Some(raw) && (raw.len() == 0 || (0 < i < raw.len() && !('0' <= raw[i]
            <= '9')) || (!('0' <= raw[0] <= '9') && raw[0] != '+')) ==> settings_of(vars).stats_frequency == 30,
{
    numbers_are_read(n, u64::MAX as nat, raw, i);
    numbers_are_read(0, u64::MAX as nat, raw, i);
}

/// As many containers are sampled at a time as `STATS_MAX_CONCURRENCY` says, but at least one and at
/// most 512, and 32 where it says nothing or is no number.
pub proof fn concurrency_is_what_the_variable_says(vars: Variables, n: nat, raw: Seq<char>, i: int)
    ensures
        find(vars, "STATS_MAX_CONCURRENCY"@) == Some(decimal_text(n)) && 1 <= n <= 512
            ==> settings_of(vars).stats_max_concurrency == n,
        find(vars, "STATS_MAX_CONCURRENCY"@) == Some(decimal_text(0))
            ==> settings_of(vars).stats_max_concurrency == 1,
        find(vars, "STATS_MAX_CONCURRENCY"@) == Some(decimal_text(n)) && 512 < n <= usize::MAX
            ==> settings_of(vars).stats_max_concurrency == 512,
        find(vars, "STATS_MAX_CONCURRENCY"@) is None ==> settings_of(vars).stats_max_concurrency == 32,
        find(vars, "STATS_MAX_CONCURRENCY"@) == Some(raw) && (raw.len() == 0 || (0 < i < raw.len() && !('0'
            <= raw[i] <= '9')) || (!('0' <= raw[0] <= '9') && raw[0] != '+'))
            ==> settings_of(vars).stats_max_concurrency == 32,
{
    numbers_are_read(n, usize::MAX as nat, raw, i);
    numbers_are_read(0, usize::MAX as nat, raw, i);
}

/// Whether a setting is the text in a variable without the white space around it, and missing where
/// the variable is, or holds nothing else.
pub open spec fn is_taken_from(
    setting: Option<Seq<char>>,
    value: Option<Seq<char>>,
    lead: Seq<char>,
    text: Seq<char>,
    tail: Seq<char>,
) -> bool {
    &&& value is None ==> setting is None
    &&& value == Some(lead) ==> setting is None
    &&& value == Some(lead + text + tail) && text.len() > 0 && !is_white(text[0]) && !is_white(text.last())
        ==> setting == Some(text)
}

/// The node, its address and the shared secret are the texts in their variables, without the white
/// space around them.
pub proof fn texts_are_taken_from_their_variables(
    vars: Variables,
    lead: Seq<char>,
    text: Seq<char>,
    tail: Seq<char>,
)
    requires
        all_white(lead),
        all_white(tail),
    ensures
        is_taken_from(settings_of(vars).node_name, find(vars, "NODE_NAME"@), lead, text, tail),
        is_taken_from(settings_of(vars).node_ip, find(vars, "NODE_IP"@), lead, text, tail),
        is_taken_from(
            settings_of(vars).shared_secret,
            find(vars, "SWARMAGENT_SHARED_SECRET"@),
            lead,
            text,
            tail,
        ),
{
    white_space_is_trimmed_away(lead);
    surrounding_white_space_is_trimmed(lead, text, tail);
    if text.len() > 0 && !is_white(text[0]) && !is_white(text.last()) {
        bare_text_is_trimmed(text);
    }
}

/// Whether a variable is unset or empty.
pub open spec fn is_unset(vars: Variables, key: Seq<char>) -> bool {
    find(vars, key) is None || find(vars, key) == Some(Seq::<char>::empty())
}

/// Whether `url` is the base URL that the variables state: `SWARMBOT_URL` before `SW4RM_BOT_URL`
/// before `SWARMBOTY_URL`.
pub open spec fn is_stated_base(vars: Variables, url: Seq<char>) -> bool {
    &&& url.len() > 0
    &&& if !is_unset(vars, "SWARMBOT_URL"@) {
        find(vars, "SWARMBOT_URL"@) == Some(url)
    } else if !is_unset(vars, "SW4RM_BOT_URL"@) {
        find(vars, "SW4RM_BOT_URL"@) == Some(url)
    } else {
        find(vars, "SWARMBOTY_URL"@) == Some(url)
    }
}

/// Whether no variable states a base URL.
pub open spec fn has_no_base(vars: Variables) -> bool {
    is_unset(vars, "SWARMBOT_URL"@) && is_unset(vars, "SW4RM_BOT_URL"@) && is_unset(vars, "SWARMBOTY_URL"@)
}

proof fn lemma_text_setting(vars: Variables, key: Seq<char>, default: Seq<char>)
    ensures
        is_unset(vars, key) ==> text_setting(vars, key, default) == default,
        !is_unset(vars, key) ==> Some(text_setting(vars, key, default)) == find(vars, key) && text_setting(
            vars,
            key,
            default,
        ).len() > 0,
{
    if let Some(v) = find(vars, key) {
        if v.len() == 0 {
            assert(v =~= Seq::<char>::empty());
        }
    }
}

/// Events go to `/events` and health checks to `/version` under the stated base URL, the slashes at
/// its end aside, unless a variable states the endpoint itself.
pub proof fn endpoints_are_under_the_stated_base(vars: Variables, base: Seq<char>, slashes: Seq<char>)
    requires
        base.len() > 0 ==> base.last() != '/',
        forall|i: int| 0 <= i < slashes.len() ==> #[trigger] slashes[i] == '/',
        is_stated_base(vars, base + slashes),
    ensures
        is_unset(vars, "EVENT_ENDPOINT"@) ==> settings_of(vars).event_endpoint == base + "/events"@,
        is_unset(vars, "HEALTH_CHECK_ENDPOINT"@) ==> settings_of(vars).health_check_endpoint == base
            + "/version"@,
        !is_unset(vars, "EVENT_ENDPOINT"@) ==> Some(settings_of(vars).event_endpoint) == find(
            vars,
            "EVENT_ENDPOINT"@,
        ),
        !is_unset(vars, "HEALTH_CHECK_ENDPOINT"@) ==> Some(settings_of(vars).health_check_endpoint) == find(
            vars,
            "HEALTH_CHECK_ENDPOINT"@,
        ),
{
    reveal_strlit("");
    lemma_text_setting(vars, "SWARMBOTY_URL"@, ""@);
    lemma_text_setting(vars, "SW4RM_BOT_URL"@, text_setting(vars, "SWARMBOTY_URL"@, ""@));
    lemma_text_setting(
        vars,
        "SWARMBOT_URL"@,
        text_setting(vars, "SW4RM_BOT_URL"@, text_setting(vars, "SWARMBOTY_URL"@, ""@)),
    );
    ends_are_taken_off(base, '/', slashes);
    lemma_text_setting(vars, "EVENT_ENDPOINT"@, base + "/events"@);
    lemma_text_setting(vars, "HEALTH_CHECK_ENDPOINT"@, base + "/version"@);
    if is_unset(vars, "SWARMBOTY_URL"@) {
        assert(text_setting(vars, "SWARMBOTY_URL"@, ""@).len() == 0);
    }
}

/// Without a stated base URL health checks go beside the stated events URL; without that too, both
/// go to `http://app:8080`.
pub proof fn health_checks_go_beside_the_events(vars: Variables, base: Seq<char>)
    requires
        has_no_base(vars),
        base.len() > 0 ==> base.last() != '/',
    ensures
        find(vars, "EVENT_ENDPOINT"@) == Some(base + "/events"@) ==> settings_of(vars).event_endpoint == base
            + "/events"@ && (is_unset(vars, "HEALTH_CHECK_ENDPOINT"@) ==> settings_of(vars).health_check_endpoint
            == base + "/version"@),
        is_unset(vars, "EVENT_ENDPOINT"@) ==> settings_of(vars).event_endpoint == "http://app:8080/events"@ && (
        is_unset(vars, "HEALTH_CHECK_ENDPOINT"@) ==> settings_of(vars).health_check_endpoint
            == "http://app:8080/version"@),
{
    let none: Seq<char> = seq![];
    let app = "http://app:8080"@;
    reveal_strlit("");
    reveal_strlit("/events");
    reveal_strlit("/version");
    reveal_strlit("http://app:8080");
    reveal_strlit("http://app:8080/events");
    reveal_strlit("http://app:8080/version");
    assert("http://app:8080/events"@ =~= app + "/events"@);
    assert("http://app:8080/version"@ =~= app + "/version"@);
    assert(app.last() == '0');
    lemma_text_setting(vars, "SWARMBOTY_URL"@, ""@);
    lemma_text_setting(vars, "SW4RM_BOT_URL"@, ""@);
    lemma_text_setting(vars, "SWARMBOT_URL"@, ""@);
    assert(stated_base(vars).len() == 0);
    lemma_text_setting(vars, "EVENT_ENDPOINT"@, app + "/events"@);
    lemma_text_setting(vars, "HEALTH_CHECK_ENDPOINT"@, base + "/version"@);
    lemma_text_setting(vars, "HEALTH_CHECK_ENDPOINT"@, app + "/version"@);
    lemma_events_end(base);
    lemma_events_end(app);
    ends_are_taken_off(base, '/', none);
    ends_are_taken_off(app, '/', none);
    assert(base + none =~= base);
    assert(app + none =~= app);
    if find(vars, "EVENT_ENDPOINT"@) == Some(base + "/events"@) {
        assert((base + "/events"@).len() > 0);
        assert(!is_unset(vars, "EVENT_ENDPOINT"@));
        lemma_text_setting(vars, "EVENT_ENDPOINT"@, base + "/events"@);
    }
}

proof fn lemma_events_end(base: Seq<char>)
    ensures
        ends_with(base + "/events"@, "/events"@),
        (base + "/events"@).take((base + "/events"@).len() - "/events"@.len()) == base,
{
    let all = base + "/events"@;
    assert(all.skip(all.len() - "/events"@.len()) =~= "/events"@);
    assert(all.take(all.len() - "/events"@.len()) =~= base);
}

// ── Reading the variables ────────────────────────────────────────────────────

/// The value of a variable.
fn variable<'a>(vars: &'a StringMap<String>, key: &str) -> (r: Option<&'a String>)
    ensures
        match r {
            Some(v) => find(viewed(vars@), key@) == Some(v@),
            None => find(viewed(vars@), key@) is None,
        },
{
    proof {
        viewed_then_find(vars@, key@);
    }
    vars.get(key)
}

/// A value without the white space around it, where that leaves anything.
pub fn non_empty(v: Option<String>) -> (r: Option<String>)
    ensures
        chars_of(r) == present(chars_of(v)),
{
    match v {
        Some(s) => {
            let t: &str = trim(s.as_str());
            if t.unicode_len() > 0 {
                Some(t.to_owned())
            } else {
                None
            }
        },
        None => None,
    }
}

/// The mode that a text asks for.
pub fn parse_agent_mode(raw: &str) -> (r: AgentMode)
    ensures
        r == agent_mode_of(raw@),
{
    let word: &str = trim(raw);
    if lowers_to(word, "docker") || lowers_to(word, "swarm") {
        AgentMode::Docker
    } else if lowers_to(word, "kubernetes") || lowers_to(word, "k8s") || lowers_to(word, "k3s") {
        AgentMode::Kubernetes
    } else {
        AgentMode::Auto
    }
}

/// The kubelet access that a text asks for.
pub fn parse_kubelet_mode(raw: &str) -> (r: KubeletMode)
    ensures
        r == kubelet_mode_of(raw@),
{
    if lowers_to(trim(raw), "proxy") {
        KubeletMode::Proxy
    } else {
        KubeletMode::Direct
    }
}

/// A variable's text, or a default where it is unset or empty.
pub fn get_string(vars: &StringMap<String>, key: &str, default: &str) -> (r: String)
    ensures
        r@ == text_setting(viewed(vars@), key@, default@),
{
    match variable(vars, key) {
        Some(v) => if v.as_str().unicode_len() > 0 {
            v.as_str().to_owned()
        } else {
            default.to_owned()
        },
        None => default.to_owned(),
    }
}

/// Base URL of the application.
///
/// Read from `SWARMBOT_URL`, `SW4RM_BOT_URL` or `SWARMBOTY_URL`; otherwise derived from
/// `EVENT_ENDPOINT`.
pub fn swarmbot_base_url(vars: &StringMap<String>) -> (r: String)
    ensures
        r@ == base_of(viewed(vars@)),
{
    let oldest: String = get_string(vars, "SWARMBOTY_URL", "");
    let older: String = get_string(vars, "SW4RM_BOT_URL", oldest.as_str());
    let stated: String = get_string(vars, "SWARMBOT_URL", older.as_str());
    if stated.as_str().unicode_len() > 0 {
        return trim_trailing_slash(stated.as_str());
    }
    let event: String = get_string(vars, "EVENT_ENDPOINT", "http://app:8080/events");
    match strip_suffix(event.as_str(), "/events") {
        Some(base) => trim_trailing_slash(base),
        None => trim_trailing_slash(event.as_str()),
    }
}

/// A URL without the slashes that it ends with.
pub fn trim_trailing_slash(url: &str) -> (r: String)
    ensures
        r@ == without_end(url@, '/'),
{
    trim_end(url, '/').to_owned()
}

/// The URL of a path under a base URL.
pub fn endpoint_from_base(base: &str, path: &str) -> (r: String)
    ensures
        r@ == base@ + path@,
{
    joined(base, path)
}

/// A variable that is `true` or `false`, or a default.
pub fn parse_bool_env(vars: &StringMap<String>, key: &str, default: bool) -> (r: bool)
    ensures
        r == flag_setting(viewed(vars@), key@, default),
{
    match variable(vars, key) {
        Some(v) => if same(v.as_str(), "true") {
            true
        } else if same(v.as_str(), "false") {
            false
        } else {
            default
        },
        None => default,
    }
}

/// A variable that is a number, or a default.
pub fn parse_u64_env(vars: &StringMap<String>, key: &str, default: u64) -> (r: u64)
    ensures
        r == number_setting(viewed(vars@), key@, default as int, u64::MAX as nat),
{
    match variable(vars, key) {
        Some(v) => match parse_unsigned(v.as_str(), u64::MAX) {
            Some(n) => n,
            None => default,
        },
        None => default,
    }
}

/// A variable that is a number, or a default.
pub fn parse_usize_env(vars: &StringMap<String>, key: &str, default: usize) -> (r: usize)
    ensures
        r == number_setting(viewed(vars@), key@, default as int, usize::MAX as nat),
{
    match variable(vars, key) {
        Some(v) => match parse_unsigned(v.as_str(), usize::MAX as u64) {
            Some(n) => n as usize,
            None => default,
        },
        None => default,
    }
}

fn optional_variable(vars: &StringMap<String>, key: &str) -> (r: Option<String>)
    ensures
        chars_of(r) == present(find(viewed(vars@), key@)),
{
    match variable(vars, key) {
        Some(v) => non_empty(Some(v.as_str().to_owned())),
        None => None,
    }
}

impl Config {
    /// Builds a [`Config`] from the variables of the process environment.
    pub fn from_env(vars: &StringMap<String>) -> (r: Config)
        ensures
            r@ == settings_of(viewed(vars@)),
    {
        let base: String = swarmbot_base_url(vars);
        let frequency: u64 = parse_u64_env(vars, "STATS_FREQUENCY", 30);
        let concurrency: usize = parse_usize_env(vars, "STATS_MAX_CONCURRENCY", 32);
        Config {
            agent_mode: parse_agent_mode(get_string(vars, "AGENT_MODE", "auto").as_str()),
            stats_frequency: if frequency < 1 {
                1
            } else {
                frequency
            },
            event_endpoint: get_string(
                vars,
                "EVENT_ENDPOINT",
                endpoint_from_base(base.as_str(), "/events").as_str(),
            ),
            health_check_endpoint: get_string(
                vars,
                "HEALTH_CHECK_ENDPOINT",
                endpoint_from_base(base.as_str(), "/version").as_str(),
            ),
            debug_event: parse_bool_env(vars, "DEBUG_EVENT", false),
            debug_stats: parse_bool_env(vars, "DEBUG_STATS", false),
            stats_max_concurrency: if concurrency < 1 {
                1
            } else if concurrency > 512 {
                512
            } else {
                concurrency
            },
            node_name: optional_variable(vars, "NODE_NAME"),
            node_ip: optional_variable(vars, "NODE_IP"),
            kubelet_insecure_tls: parse_bool_env(vars, "AGENT_KUBELET_INSECURE_TLS", true),
            kubelet_mode: parse_kubelet_mode(get_string(vars, "AGENT_KUBELET_MODE", "direct").as_str()),
            shared_secret: optional_variable(vars, "SWARMAGENT_SHARED_SECRET"),
        }
    }
}

} // verus!
