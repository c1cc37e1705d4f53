//! A small desktop-shell support library: the persisted settings record with
//! its validation rules, the JSON text it is stored as, and the fixed accent
//! color table used for window chrome.

pub mod codec;
pub mod colors;
pub mod menu;
pub mod settings;
pub mod strutil;
pub mod urlcheck;
