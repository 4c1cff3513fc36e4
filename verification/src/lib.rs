//! A verified flocking ("boids") simulation core.
//!
//! A population of point agents senses nearby peers and steers by three
//! rules — alignment, cohesion and separation — inside a rectangular arena
//! with wrap-around edges.  All state is kept in fixed-point integer
//! coordinates (`SCALE` sub-units per arena unit), so every arithmetic step
//! is exact and every contract below is proved, including the hard caps on
//! velocity and steering-force magnitude and the order-independence of a
//! simulation tick.
//!
//! Rendering, input handling and timing signals are external collaborators:
//! they consume the population snapshot and drive `tick`, but the core never
//! depends on them.

pub mod agent;
pub mod laws;
pub mod rng;
pub mod sim;
pub mod vec2;
