//! Orbit: the decision logic of a keyboard-driven application launcher.

pub mod window;
pub mod text;
pub mod order;
pub mod paths;
pub mod catalog;
pub mod search;
pub mod launcher;
pub mod shell;
pub mod scanner;
pub mod view;
pub mod tray;
pub mod login;
pub mod icon;
