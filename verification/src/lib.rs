//! Cheshire Chess: the verified core of a terminal chess program.
pub mod bits;
pub mod board;
pub mod canvas;
pub mod client;
pub mod clock;
pub mod engine;
pub mod identity;
pub mod minigames;
pub mod panels;
pub mod progress;
pub mod protocol;
pub mod puzzle;
pub mod server;
pub mod session;
pub mod settings;
pub mod text;
pub mod tracker;
pub mod ui;
