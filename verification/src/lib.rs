//! Core logic of keyclack, a program that plays a mechanical-keyboard click
//! for every key press: key-repeat suppression, voice allocation for the
//! mixer, sound-pack bookkeeping and the small text and path computations
//! around them.

pub mod audio;
pub mod config;
pub mod hotkey;
pub mod input;
pub mod login_item;
pub mod pack;
pub mod paths;
pub mod press_tracker;
pub mod text;
pub mod ui;
