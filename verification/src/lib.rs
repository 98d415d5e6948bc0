pub mod text;
pub mod ids;
pub mod catalog;
pub mod model;
pub mod entries;
pub mod nickname;
pub mod order;
pub mod room;
pub mod spotlight;
pub mod departure;
pub mod results;
pub mod play;
pub mod prompts;
pub mod lifecycle;
pub mod snapshot;
pub mod codes;
pub mod invariants;
pub mod selection;
pub mod registry;
pub mod manager;
pub mod events;
pub mod laws;
pub mod access;

pub use manager::RoomManager;
