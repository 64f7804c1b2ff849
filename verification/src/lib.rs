//! Patches the compiled game logic of Northgard (`hlboot.dat`, a HashLink bytecode program) for a
//! randomizer.
//!
//! The patched game unlocks a node of its map only where a marker file for the node exists, on top
//! of its own rules, keeps the open map up to date, and hands resources to the player where marker
//! files stand for them. Three corrections go with that, for code of the game that was written for
//! a map where only one node of each row can be won.
//!
//! - [`hl`], [`module`] and [`image`] are the program: its parts, what the patches see of it, and
//!   its bytes.
//! - [`scan`], [`scan_types`], [`scan_code`], [`format`] and [`links`] go through bytes before they
//!   are read, and [`limits`] through a program before it is written.
//! - [`lookup`], [`sites`] and [`diagnose`] find things in it by name.
//! - [`gate`], [`refresh`], [`fixes`], [`fields`] and [`grants`] are the patches; [`prepend`] is
//!   what some of them share, and [`resources`] lists what can be granted.
//! - [`status`] and [`apply`] decide what has been done to an installation, and what is to be done.
//! - [`steam`], [`dialogue`] and [`replace`] are for the tool around it: where the game is, what
//!   its user wants, and how a file is replaced.
//! - [`valid`], [`laws`], [`apply_laws`] and [`write_laws`] state what the patches keep. [`reread`]
//!   says what comes back of a program that is written and read, and [`survival`] and [`file_laws`]
//!   state that a patched one does.
//! - [`machine`] says what instructions do. [`gate_behaviour`], [`walk_behaviour`],
//!   [`fix_behaviour`], [`grant_behaviour`] and [`prepend_behaviour`] state what the new code does
//!   when it runs, and [`installed`] that it does so in a program that has been patched.
//! - [`written`], [`written_code`] and [`written_image`] say how a program is written as bytes, and
//!   state that it is gone through as it was written; [`link_laws`] and [`limit_laws`] state which
//!   programs are taken to be in order.
//! - [`find_laws`], [`text_laws`], [`resource_laws`], [`patch_laws`], [`typed`] and
//!   [`behaviour_laws`] state what the answers, the patches and the new code are for, apart from how
//!   they come about.

pub mod apply;
pub mod apply_laws;
pub mod behaviour_laws;
pub mod diagnose;
pub mod dialogue;
pub mod fields;
pub mod file_laws;
pub mod find_laws;
pub mod fix_behaviour;
pub mod fixes;
pub mod format;
pub mod gate;
pub mod gate_behaviour;
pub mod grant_behaviour;
pub mod grants;
pub mod hl;
pub mod image;
pub mod installed;
pub mod laws;
pub mod limit_laws;
pub mod limits;
pub mod link_laws;
pub mod links;
pub mod lookup;
pub mod machine;
pub mod module;
pub mod patch_laws;
pub mod prepend;
pub mod prepend_behaviour;
pub mod refresh;
pub mod reread;
pub mod replace;
pub mod resource_laws;
pub mod resources;
pub mod scan;
pub mod scan_code;
pub mod scan_types;
pub mod sites;
pub mod status;
pub mod steam;
pub mod survival;
pub mod text;
pub mod text_laws;
pub mod typed;
pub mod valid;
pub mod walk_behaviour;
pub mod write_laws;
pub mod written;
pub mod written_code;
pub mod written_image;
