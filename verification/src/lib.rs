//! RightKeys: the decision logic of a system-wide key remapper.
//!
//! Everything here is pure: key events, configuration text, window geometry and
//! the like come in as plain values, and what has to be emitted, moved or drawn
//! goes out as plain values. The programs around the library talk to the
//! operating system.

pub mod access;
pub mod access_laws;
pub mod actions;
pub mod assoc;
pub mod combo;
pub mod config;
pub mod config_laws;
pub mod desktop_laws;
pub mod document;
pub mod double;
pub mod element;
pub mod engine;
pub mod engine_laws;
pub mod fonts;
pub mod geometry;
pub mod hints;
pub mod icon;
pub mod image;
pub mod image_laws;
pub mod key;
pub mod key_laws;
pub mod launch;
pub mod model;
pub mod notify;
pub mod output_laws;
pub mod overlay_laws;
pub mod path;
pub mod pattern;
pub mod picker;
pub mod placement_laws;
pub mod rect;
pub mod reload;
pub mod rules;
pub mod session;
pub mod session_laws;
pub mod startup;
pub mod text;
pub mod title;
pub mod trace;
pub mod tray;
pub mod window;
pub mod wmprops;
