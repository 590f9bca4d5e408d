pub mod platform;
pub mod table;
pub mod components;
pub mod inventory;
pub mod world;
pub mod player_actions;
pub mod trade;
pub mod chunks;
pub mod npcs;
pub mod laws;
pub mod trade_laws;
