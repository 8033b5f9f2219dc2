//! Chess database library.
pub mod admin;
pub mod auth;
pub mod backup;
pub mod chess;
pub mod cli;
pub mod cloud_eval;
pub mod csv_file;
pub mod dedup;
pub mod dedup_plan;
pub mod edit;
pub mod engine;
pub mod feeds;
pub mod fide;
pub mod fingerprint;
pub mod ids;
pub mod import_context;
pub mod importer;
pub mod jobs;
pub mod job_queue;
pub mod inputs;
pub mod job_plan;
pub mod local_files;
pub mod locations;
pub mod memory;
pub mod migrations;
pub mod names;
pub mod net;
pub mod normalise;
pub mod params;
pub mod patterns;
pub mod paths;
pub mod pgn;
pub mod pgn_sessions;
pub mod player_merge;
pub mod players;
pub mod position_index;
pub mod positions;
pub mod prep;
pub mod progress;
pub mod proxy;
pub mod queries;
pub mod reading;
pub mod render;
pub mod reopen_gate;
pub mod reporter;
pub mod reverse;
pub mod shortlist;
pub mod snapshot;
pub mod sorting;
pub mod text;
pub mod union_find;
pub mod visitor;
