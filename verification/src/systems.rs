pub mod player_input;
pub mod random_move;
pub mod movement;
pub mod collisions;
pub mod map_render;
