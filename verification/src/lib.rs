//! Verified logic of a handful of generative-art sketches: the stage machine
//! of the compute-shader nodes, the colour bands of a palette texture, the
//! placement of tiles on layered tile maps, and the states of a small game.
pub mod app_state;
pub mod compute_node;
pub mod compute_worker;
pub mod layers;
pub mod particles;
