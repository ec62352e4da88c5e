//! A 2D ray-casting geometry engine for a pseudo-3D column renderer.
//!
//! The world is a set of bounded wall segments in a plane; a viewer casts one
//! probe ray per screen column, the nearest wall hit per ray is found, and the
//! hit distance is mapped to a vertical column height, giving a stylized depth
//! cue. All geometry is carried out exactly over fixed-point integer
//! coordinates ([`geometry::SCALE`] units per world unit), so every
//! intersection result is an exact rational point and every contract is
//! provable arithmetic rather than a floating-point approximation. Terminal
//! drawing and trigonometry (turning a heading angle into a ray direction)
//! live with the caller, which hands the engine plain integer values.

pub mod angle;
pub mod geometry;
pub mod project;
