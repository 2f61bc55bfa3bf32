//! Host-level IPv4 traffic accounting: a policy parser, a classifier
//! programmer that synthesises rule batches, per-destination quota state
//! machines and a pausable connection timer.

pub mod model;
pub mod text;
pub mod outside;
pub mod config;
pub mod timer;
pub mod netfilter;
pub mod tags;
pub mod controller;
pub mod laws;
