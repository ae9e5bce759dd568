//! The screens of `nmtzk`: a transcript of results above a composer where slash commands are typed.
//!
//! This crate holds what the screens decide: documents and how they are laid out at a width,
//! wrapping and cutting text by terminal columns, the composer's editing and history, the
//! transcript's scrolling, the slash-command grammar, its completions and the explanation of each
//! mistake, the catalog pages' markdown, what keys, the wheel and running tasks do to the screen,
//! where the screen's parts, the popup and the shortcut box sit, and the documents of `/help`,
//! `/examples`, the welcome box, `/about`'s facts and the steps of an attack. Every public
//! function states what it returns in its contract.
//! Verus proves every function but the few marked `external_body`, which wrap a call into std,
//! `unicode-width` or `pulldown-cmark` and whose contracts are trusted.

pub mod strings;
pub mod width;
pub mod doc;
pub mod text;
pub mod look;
pub mod layout;
pub mod table;
pub mod plain;
pub mod activities;
pub mod format;
pub mod phrases;
pub mod composer;
pub mod markdown;
pub mod commands;
pub mod complete;
pub mod activity;
pub mod transcript;
pub mod pager;
pub mod screen;
pub mod overlay;
pub mod frame;
pub mod jobs;
pub mod views;
