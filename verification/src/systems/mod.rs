//! The phases of a tick.

pub mod box_placed_on_spot_event_handler_system;
pub mod entity_moved_event_handler_system;
pub mod events;
pub mod gameplay_state;
pub mod input;
pub mod movement;
pub mod occupancy;
pub mod player_hit_obstacle_event_handler_system;
pub mod push;
pub mod push_theorems;
pub mod rendering;
