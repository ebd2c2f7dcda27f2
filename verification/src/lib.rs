//! A chat client for the Pi agent: its screen, its conversation with Pi, and
//! the rules between them.
pub mod activity;
pub mod auth;
pub mod base64;
pub mod chat;
pub mod cli;
pub mod clipboard;
pub mod commands;
pub mod compaction;
pub mod composer;
pub mod diagnostics;
pub mod dialog;
pub mod display;
pub mod draft;
pub mod error;
pub mod exchange;
pub mod frame;
pub mod input;
pub mod json;
pub mod keys;
pub mod lines;
pub mod logout;
pub mod markdown;
pub mod modal;
pub mod models;
pub mod number;
pub mod paint;
pub mod paths;
pub mod pending;
pub mod picker;
pub mod prose;
pub mod queue;
pub mod render;
pub mod rpc;
pub mod run;
pub mod screen;
pub mod sessions;
pub mod table;
pub mod terminal;
pub mod text;
pub mod thinking;
pub mod tools;
pub mod transcript;
pub mod transport;
pub mod turn;
pub mod ui;
pub mod update;
pub mod utf8;
pub mod wire;
