//! A monitoring agent for Docker and Kubernetes nodes: what it decides and computes.
//!
//! - [`config`], [`detect`]: settings from the environment, and which orchestrator they mean;
//! - [`provider`]: the Docker and the Kubernetes side of statistics and events;
//! - [`container_stats`], [`host`]: usage of containers and of the host;
//! - [`models`], [`sink`]: what is sent, and in which form;
//! - [`backoff`], [`web`]: reconnecting, and container logs;
//! - [`binary64`], [`decimal`], [`natural`], [`percent`], [`counter`], [`clock`], [`json`],
//!   [`keyed`], [`text`]: numbers, times, JSON values, maps and text.

pub mod backoff;
pub mod binary64;
pub mod clock;
pub mod config;
pub mod container_stats;
pub mod counter;
pub mod decimal;
pub mod detect;
pub mod host;
pub mod json;
pub mod keyed;
pub mod models;
pub mod natural;
pub mod percent;
pub mod provider;
pub mod sink;
pub mod text;
pub mod web;
