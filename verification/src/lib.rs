//! The integer core of a two-dimensional particle fluid simulation, and the
//! rules of the services that record and render one.
//!
//! The simulation finds the neighbors of a particle through a spatial hash:
//! `hashing` numbers the cells of the grid, `table` describes the sorted
//! table of a population, and `spatial_hash` builds and queries it. `layout`
//! places the particles on their initial grid. `session` decides what a
//! recording session does about each request of its client, `protocol` holds
//! its replies, `frames` names the stored frames, and `parameters` picks the
//! settings of the render worker.

pub mod frames;
pub mod hashing;
pub mod layout;
pub mod parameters;
pub mod protocol;
pub mod session;
pub mod spatial_hash;
pub mod table;
