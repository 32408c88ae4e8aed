# swarmagent

A push-only monitoring agent for Docker (Swarm or standalone) and Kubernetes (k3s or any conformant
cluster) nodes. It sends host and container statistics and lifecycle events to Swarmboty.

## Layout

- `src/` is the library: everything the agent decides and computes, written in Verus. Contracts are
  stated over mathematical models (sequences of characters, JSON trees, exact numbers) and proved.
- `app/` is the program around it: HTTP, the Docker socket, the operating system, logging.
- `tests/` runs the library on concrete values.

## What is stated

| Module | Statement |
|---|---|
| `provider::kubernetes::events` | which lifecycle events a pod watch event gives, and what is tracked afterwards |
| `provider::kubernetes::watch` | how the byte stream is cut into lines, however it arrives |
| `provider::kubernetes::pods` | resource quantities, workloads behind owners, memory limits |
| `provider::kubernetes::summary` | node and container usage from the kubelet's summary |
| `provider::docker`, `container_stats`, `host` | the same from Docker and from the host |
| `config`, `detect` | every setting as a function of the environment |
| `models`, `sink` | the JSON of every payload, the headers and the envelope |
| `binary64`, `decimal` | IEEE 754 binary64 products, quotients and decimal text, rounded to nearest |

## What is trusted

Calls into other crates stand behind small functions whose contracts are believed:
`chrono` reads RFC 3339 text and measures intervals (`clock`), `serde_json` reads JSON documents
(`json`), and the standard library turns log bytes into text (`web`).

## Environment variables

| Variable | Default | Description |
|---|---|---|
| `AGENT_MODE` | `auto` | `auto`, `docker`, or `kubernetes` |
| `SWARMBOT_URL`, `SW4RM_BOT_URL`, `SWARMBOTY_URL` | `http://app:8080` | base URL, the first that is set; `/events` and `/version` are derived from it |
| `EVENT_ENDPOINT` | `<base>/events` | events URL |
| `HEALTH_CHECK_ENDPOINT` | `<base>/version` | URL polled every 5 s until it answers with a success |
| `STATS_FREQUENCY` | `30` | seconds between stats payloads, at least 1 |
| `STATS_MAX_CONCURRENCY` | `32` | Docker mode: parallel `docker stats` calls, 1 to 512 |
| `NODE_NAME` | none | Kubernetes mode, required: node name |
| `NODE_IP` | none | Kubernetes mode: host IP for direct kubelet access |
| `AGENT_KUBELET_MODE` | `direct` | `direct` (falls back to the proxy) or `proxy` |
| `AGENT_KUBELET_INSECURE_TLS` | `true` | skip TLS verification for direct kubelet calls |
| `SWARMAGENT_SHARED_SECRET` | none | sent as `X-Agent-Token` with every request |
| `DEBUG_EVENT`, `DEBUG_STATS` | `false` | log outbound events or stats |
