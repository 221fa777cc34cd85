//! A liquid-sort puzzle: coloured liquids are layered in cups of fixed
//! capacity, and the player pours the top unit of one cup onto another until
//! every colour sits in a cup of its own.
//!
//! The crate holds the rules of the game, each with a machine-checked
//! contract: the cup and the pour ([`cup`]), what holds of a whole roster of
//! cups ([`roster`]), the starting layouts ([`level_creator`]) and the
//! two-pick selection protocol ([`app`]). Drawing and reading keys are left to
//! the program around it.

pub mod app;
pub mod cup;
pub mod level_creator;
pub mod liquids;
pub mod roster;
