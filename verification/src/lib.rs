//! Grid bookkeeping, geometry decisions and result records of a 2D axisymmetric
//! compressible-flow sandbox.

pub mod bodies;
pub mod calendar;
pub mod contour;
pub mod curve;
pub mod editor;
pub mod error;
pub mod euler;
pub mod field;
pub mod flow;
pub mod forces;
pub mod freeform;
pub mod ghosts;
pub mod grade;
pub mod grid;
pub mod handles;
pub mod json;
pub mod mach;
pub mod machine;
pub mod mock;
pub mod moment;
pub mod monitor;
pub mod nozzle;
pub mod padded;
pub mod parallel;
pub mod profile;
pub mod rao;
pub mod raster;
pub mod refill;
pub mod report;
pub mod results;
pub mod riemann;
pub mod scalar;
pub mod sensor;
pub mod setup;
pub mod snapshot;
pub mod solver;
pub mod stage;
pub mod sweep;
pub mod tessellate;
pub mod text;
pub mod update;
pub mod walk;
