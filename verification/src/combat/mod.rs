//! Combat rules: formulas, sheets, the tenth-of-a-second fight, locks and logs.
pub mod actors;
pub mod arena;
pub mod attacks;
pub mod catalog;
pub mod consideration;
pub mod fight;
pub mod fight_effects;
pub mod fight_laws;
pub mod fighters;
pub mod formula_laws;
pub mod hostile_ai;
pub mod hostile_laws;
pub mod hud;
pub mod levels;
pub mod live;
pub mod lock;
pub mod log;
pub mod math;
pub mod number;
pub mod player_actions;
pub mod product;
pub mod scenarios;
pub mod sheets;
pub mod sim;
pub mod strike_laws;
pub mod target;
pub mod turn_laws;
pub mod verb_effects;
pub mod verb_laws;
pub mod verbs;
pub mod world;
