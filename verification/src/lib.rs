//! Verified core of the Realm deployment agent: binary platform sniffing,
//! metrics and logs, the content-addressed artifact index, job bookkeeping,
//! admission of signed manifests and upgrades, and the web API's views.
use vstd::prelude::*;

pub mod text;
pub mod keyed;
pub mod component;
pub mod supervisor;
pub mod web;
pub mod logs;
pub mod health;
pub mod state;
pub mod policy;
pub mod ci;
pub mod theme;
pub mod laws;
pub mod exposition;
pub mod mesh;
pub mod package;
pub mod gateway;
pub mod cli;
pub mod platform;
pub mod metrics;
pub mod storage;
pub mod digest;
pub mod admission;
pub mod jobs;
pub mod broadcast;
pub mod discovery;
pub mod host;
pub mod deploy;
pub mod runs;
pub mod endpoint;
pub mod uploads;

verus! {
} // verus!
