//! Key mapping for Android games on Linux: the verified core.
pub mod aim_laws;
pub mod art;
pub mod backend;
pub mod bench;
pub mod by_name;
pub mod coord;
pub mod devices;
pub mod editor;
pub mod engine;
pub mod engine_laws;
pub mod game;
pub mod held;
pub mod helper;
pub mod keymapper;
pub mod keys;
pub mod latency;
pub mod library;
pub mod mapper;
pub mod mouse;
pub mod net;
pub mod num;
pub mod order;
pub mod perf;
pub mod press_laws;
pub mod profile;
pub mod render;
pub mod runner;
pub mod say;
pub mod session;
pub mod shelf;
pub mod shell;
pub mod sidebar;
pub mod state;
pub mod store;
pub mod supervise;
pub mod text;
pub mod tint;
pub mod touch;
pub mod trace;
pub mod trace_report;
pub mod trial;
pub mod video;
pub mod video_report;
pub mod window;
pub mod wl_touch;
pub mod words;
