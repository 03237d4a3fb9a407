//! The logic of a terminal client for conversations with a remote
//! completion model, with its contracts.
//!
//! A conversation is a [`thread::Thread`] of [`message::Message`]s. The
//! reply of the model arrives as a stream of bytes: [`client`] reads the
//! records of the stream and yields the tokens of the reply, which the
//! thread collects until the reply ends. [`session::Session`] holds the
//! threads and [`db::Store`] the rows that keep them between two runs.
//! [`tui::App`] is the state of the screen and says what each event makes
//! of it, and [`modes`] what a key means on each of the three screens;
//! [`render`] and [`highlight`] turn code into rows of coloured text.
//! [`config`] and [`cli`] hold the rules of the configuration and of the
//! commands, [`json`] reads JSON documents, and [`relay`] frames the
//! messages to the relay.
//! [`text`], [`lines`] and [`decimal`] are the vocabulary that the
//! contracts are written in; [`splitting`] states that a stream may be read
//! piece by piece, and [`markers`] that the markers in the text of a
//! message are those of its code blocks.

pub mod cli;
pub mod client;
pub mod config;
pub mod db;
pub mod decimal;
pub mod error;
pub mod highlight;
pub mod json;
pub mod lines;
pub mod llm;
pub mod markers;
pub mod message;
pub mod modes;
pub mod relay;
pub mod render;
pub mod session;
pub mod splitting;
pub mod text;
pub mod thread;
pub mod tui;
