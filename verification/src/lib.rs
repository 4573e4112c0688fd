//! Core of a terminal user interface for a coding assistant.

pub mod bottom;
pub mod bytes;
pub mod chat;
pub mod clipboard;
pub mod clock;
pub mod color;
pub mod commands;
pub mod control;
pub mod display;
pub mod draw;
pub mod elements;
pub mod events;
pub mod feed;
pub mod flow;
pub mod hands;
pub mod help;
pub mod interactive;
pub mod keys;
pub mod line;
pub mod markdown;
pub mod markup;
pub mod merging;
pub mod num;
pub mod painted;
pub mod pickers;
pub mod prompts;
pub mod record;
pub mod renderer;
pub mod screen;
pub mod sent;
pub mod session;
pub mod shown;
pub mod slash;
pub mod startup;
pub mod statusline;
pub mod steps;
pub mod submit;
pub mod table;
pub mod terminal;
pub mod text;
pub mod turn;
pub mod urls;
pub mod verbatim;
pub mod width;
pub mod wrap;
