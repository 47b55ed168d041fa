//! A wrap-around grid snake game: grid arithmetic, the occupancy index, fruit
//! placement, the snake's movement state machine and the round controller.

pub mod grid;
pub mod occupancy;
pub mod fruit;
pub mod snake;
pub mod round;
