//! A procedurally generated scalar field simulator: a hierarchy of moving
//! point sources stamps a radial falloff kernel into a sparse grid of
//! fixed-size chunks, and a generational stochastic search tunes the
//! hierarchy's degrees of freedom to minimize the field's total error.
//!
//! All continuous quantities (positions, strengths, angles, field samples)
//! are fixed-point numbers: an `i64` holding the value scaled by `SCALE`.

pub mod chunk;
pub mod config;
pub mod error;
pub mod geom;
pub mod kernel;
pub mod object;
pub mod optimize;
pub mod registry;
pub mod transform;
pub mod trig;
pub mod universe;

pub use chunk::CHUNK_CELLS;
pub use chunk::Chunk;
pub use config::ObjectConfiguration;
pub use error::SimError;
pub use geom::CHUNK_SIZE;
pub use geom::IPoint;
pub use geom::Point;
pub use geom::SCALE;
pub use geom::chunkCoord;
pub use kernel::KERNEL_CUTOFF;
pub use kernel::KERNEL_TABLE;
pub use kernel::create_field_vec;
pub use object::Blop;
pub use object::add_field;
pub use object::identify_chunks;
pub use optimize::run_evolution;
pub use optimize::update_simulation;
pub use registry::DOFType;
pub use registry::Object;
pub use registry::ObjectUniverse;
pub use transform::Transform;
pub use transform::identity;
pub use transform::matmult;
pub use transform::rotmatrix;
pub use transform::transform_pt;
pub use transform::txmatrix;
pub use trig::fx_cos;
pub use trig::fx_sin;
pub use universe::Universe;
