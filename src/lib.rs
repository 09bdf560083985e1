//! Data model of a trading-card-game deck editor: rulesets, card and card-type
//! definitions, deck sections and their copy counts, read from and written to
//! small XML documents.

pub mod card;
pub mod deck;
pub mod editor;
pub mod images;
pub mod names;
pub mod tcg;
pub mod xml;
