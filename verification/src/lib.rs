//! The logic of a browser light-show editor: an append-only edit log folded
//! into a keyframe-and-hold timeline, the rules of the backend that stores it,
//! and the editing, audio, export and sign-in decisions around it.
pub mod archive;
pub mod audio;
pub mod audio_laws;
pub mod auth;
pub mod auth_laws;
pub mod backend_laws;
pub mod beat_laws;
pub mod beats;
pub mod chunking;
pub mod clipboard;
pub mod conn;
pub mod cookies;
pub mod editing;
pub mod encoding;
pub mod export;
pub mod export_laws;
pub mod fixture_region_laws;
pub mod fixture_text;
pub mod fixtures;
pub mod fork;
pub mod grid;
pub mod grid_laws;
pub mod import_laws;
pub mod instructions;
pub mod json;
pub mod label_laws;
pub mod labels;
pub mod laws;
pub mod lists;
pub mod log_laws;
pub mod logic;
pub mod package;
pub mod package_laws;
pub mod pattern_laws;
pub mod patterns;
pub mod projector_patterns;
pub mod projects;
pub mod region_laws;
pub mod regions;
pub mod round_trip;
pub mod rows;
pub mod scene;
pub mod seeder;
pub mod seeding;
pub mod session;
pub mod session_laws;
pub mod songs;
pub mod stage_laws;
pub mod stage_rows;
pub mod state;
pub mod store;
pub mod text;
pub mod text_laws;
pub mod track_laws;
pub mod upload;
