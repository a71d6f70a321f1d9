//! Terminal front end logic for QMK keymap workflows: text editing, keyboard
//! discovery decisions, request validation and the application state machine.

pub mod app;
pub mod cli;
pub mod discovery;
pub mod qmk;
pub mod text;
