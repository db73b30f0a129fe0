use vstd::prelude::*;

pub mod app;
pub mod audio_tap;
pub mod backend;
pub mod config;
pub mod decimal;
pub mod input;
pub mod keys;
pub mod library;
pub mod menu;
pub mod metadata;
pub mod mouse;
pub mod native;
pub mod player;
pub mod search;
pub mod session;
pub mod shared_audio;
pub mod stats;
pub mod subtitles;
pub mod text;
pub mod ui;
pub mod visualizer;
pub mod web;
pub mod window;

verus! {

} // verus!
