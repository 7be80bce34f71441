pub mod map;
pub mod rect;
pub mod rng;
pub mod connectivity;
pub mod map_builder;
pub mod turn_state;
pub mod entities;
pub mod camera;
pub mod systems;
pub mod state;
