//! Lays out an ordered list of emotes as pages of buttons for a Stream Deck
//! panel, links the pages with navigation buttons, and merges a page with the
//! buttons of an earlier stored version of it.
//!
//! The way of an emote through the library:
//!
//! - [`youtube`] reads the emotes out of the HTML of a channel's memberships
//!   page, and [`order`] puts them in the order in which they are to appear;
//! - [`layout`] deals them onto pages of the panel's grid ([`grid`]), each
//!   emote as a button ([`action`]) in a cell of a page ([`manifest`],
//!   [`action_map`]), and links the pages into a chain, each page under an
//!   identifier of its own ([`ident`]);
//! - [`merge`] combines a page with the buttons that an earlier stored version
//!   of it holds ([`records`]);
//! - [`document`] gives the page the JSON form in which the device software
//!   stores it, and [`paths`] says where.
//!
//! Every function is verified against its contract. What is taken on trust
//! is stated where it stands: the contracts of the calls into `serde_json`
//! ([`json`]), `uuid` ([`ident`]), `bytes` ([`action`]) and of a few functions
//! of the standard library ([`text`]).

pub mod action;
pub mod action_map;
pub mod document;
pub mod grid;
pub mod ident;
pub mod json;
pub mod layout;
pub mod manifest;
pub mod merge;
pub mod order;
pub mod paths;
pub mod records;
pub mod text;
pub mod youtube;
