//! The logic of a window manager: what it does on each event, which windows it
//! moves where and when, and what it keeps of scratchpads, animations, scrolling
//! and the window server.
//!
//! Floating point numbers are held by their bits. What has to be computed with
//! them, the time, and what only the system can do are handed in as values.
pub mod animation;
pub mod animation_laws;
pub mod animation_manager;
pub mod apps;
pub mod discovery_laws;
pub mod effects;
pub mod event_laws;
pub mod events;
pub mod frame_laws;
pub mod geometry;
pub mod ids;
pub mod launch;
pub mod motion_laws;
pub mod names;
pub mod number;
pub mod ordered;
pub mod reactions;
pub mod reactor;
pub mod reactor_laws;
pub mod reactor_model;
pub mod request;
pub mod response_laws;
pub mod scratchpad;
pub mod scroll_laws;
pub mod sequences;
pub mod server_laws;
pub mod showing_laws;
pub mod space;
pub mod spring;
pub mod system;
pub mod text;
pub mod viewport;
pub mod window_server;
