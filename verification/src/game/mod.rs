pub mod broker;
pub mod errors;
pub mod events;
pub mod fresh;
pub mod states;
pub mod keyed;
pub mod logic;
pub mod map;
pub mod map_fabric;
pub mod mapobj;
pub mod maptank;
pub mod run;
pub mod tank;
pub mod user;
pub mod wallobj;
