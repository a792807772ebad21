//! The logic of a mahjong assistant with a built-in bot, verified with Verus.
//!
//! - [`replay`] turns game logs into training samples, on the events that
//!   [`mjai_compat`] reads, the table that [`engine`] keeps and the ids that
//!   [`action_codec`] gives. [`choice_laws`] states what each event is as a choice,
//!   [`step_laws`] what each part of a step does, [`engine_laws`] what the table
//!   takes, [`replay_laws`] what holds of every replay and [`log_laws`] what holds
//!   of whole logs.
//! - [`extract`] shares out log files to shards and lays out the samples' bytes.
//! - [`api`] puts together the requests to a remote inference server and reads
//!   its refusals; [`json`] is its view of JSON.
//! - [`config`] holds the user's settings.
//! - [`mjai`], [`geometry`] and [`text`] hold what the others share.
//! - [`result_laws`] states what callers of the public functions get.
pub mod action_codec;
pub mod api;
pub mod choice_laws;
pub mod config;
pub mod engine;
pub mod engine_laws;
pub mod extract;
pub mod geometry;
pub mod json;
pub mod log_laws;
pub mod mjai;
pub mod mjai_compat;
pub mod replay;
pub mod replay_laws;
pub mod result_laws;
pub mod step_laws;
pub mod text;
