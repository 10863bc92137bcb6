//! The logic of a skill-management application, with its telemetry engine
//! at the centre: an event store that takes in usage events of skills,
//! answers queries over rolling windows, rolls up each day, and raises
//! alerts on anomalies.
//!
//! The library keeps its tables in memory and neither listens nor reads
//! or writes files: whoever serves requests or keeps the tables on disk
//! hands over plain values and takes plain values back. Rates and means
//! are exact fractions, and costs are counted in millionths of a dollar.
//!
//! The engine is made of [`analytics_store`], [`analytics_alert`] and
//! [`analytics_ingest`], over the queries in [`top_skills`], [`callers`],
//! [`retention`], [`rollup`] and [`trend`]; [`laws`] states what holds of
//! it as a whole. Beside it stand the catalogue of managed skills in
//! [`skill_store`], the skills on offer in [`discovery`] and its
//! neighbours, the first-run plan in [`onboarding`], and the answers of
//! the commands in [`commands`].

pub mod analytics_alert;
pub mod analytics_ingest;
pub mod analytics_store;
pub mod auto_update;
pub mod calendar;
pub mod callers;
pub mod chat_server;
pub mod claude_cli;
pub mod clock;
pub mod commands;
pub mod discovery;
pub mod discovery_config;
pub mod discovery_parser;
pub mod discovery_remote;
pub mod distinct;
pub mod event;
pub mod ident;
pub mod json_text;
pub mod laws;
pub mod onboarding;
pub mod paths;
pub mod pattern;
pub mod percentile;
pub mod ranking;
pub mod ratio;
pub mod retention;
pub mod rollup;
pub mod skill_store;
pub mod stats;
pub mod tally;
pub mod text;
pub mod text_order;
pub mod top_skills;
pub mod trend;
pub mod web_address;
