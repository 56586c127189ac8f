//! Orrun: the continent atlas, combat rules, key bindings and game data of a
//! small role-playing world, with every rule stated as a contract.
pub mod args;
pub mod atlas;
pub mod combat;
pub mod controls;
pub mod gamedata;
pub mod hamlet;
pub mod measure;
pub mod playtest;
pub mod rng;
pub mod rounding;
pub mod text;
