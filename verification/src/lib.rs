//! Turn-by-turn decision engine for a team of two wizards in a ball game
//! played on a rectangular map with a goal at either end.
//!
//! Every turn the engine takes in a report of all objects in play, assigns
//! each own wizard a snaffle to go for, and decides for each of them
//! whether to throw, to cast a spell, or to move, where to, and how hard.
//!
//! All geometry is exact integer arithmetic on a fixed-point grid: a
//! coordinate counts thousandths of a map unit, a friction or a mass
//! thousandths of one. Reports and commands are in whole units. Comparisons
//! of distances are exact; only what leaves the grid is rounded, and always
//! toward zero.
//!
//! Predictions default to the flat decay rule: each turn ahead adds the
//! velocity as friction leaves it after one turn, without compounding. The
//! compounding rule is at hand as `collider::Decay::Compounding`.
//!
//! The modules, leaves first: `fixed` (arithmetic on the grid), `vector`
//! (geometry kernel), `collider` (physical bodies), `entity` (tracked
//! objects and their kinds), `goal`, `select` (choosing the best of ranked
//! candidates), `state` (the registry and how a report changes it),
//! `queries`, `targets` (target assignment), `sight` (line of sight), `aim`
//! (destinations and efforts), `policy` (the decision of a turn), and
//! `config` (constants).

pub mod fixed;
pub mod vector;
pub mod collider;
pub mod entity;
pub mod config;
pub mod goal;
pub mod select;
pub mod state;
pub mod queries;
pub mod targets;
pub mod sight;
pub mod aim;
pub mod policy;
