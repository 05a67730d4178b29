//! Dynamic monitor configuration: layouts, their validation, the profiles that
//! produce them and the files and requests that carry them to a compositor.

pub mod apply;
pub mod browser;
pub mod cli;
pub mod compositor;
pub mod config;
pub mod daemon;
pub mod decimals;
pub mod detection;
pub mod editing;
pub mod emit;
pub mod env;
pub mod fixed;
pub mod generating;
pub mod geometry;
pub mod history;
pub mod i18n;
pub mod input;
pub mod ipc;
pub mod json;
pub mod layout;
pub mod listening;
pub mod matching;
pub mod monitor;
pub mod notice;
pub mod notify;
pub mod number;
pub mod path;
pub mod reading;
pub mod rendering;
pub mod resolving;
pub mod saved;
pub mod seqs;
pub mod service;
pub mod session;
pub mod surroundings;
pub mod telling;
pub mod text;
pub mod web;
pub mod wiring;
pub mod wordings;
