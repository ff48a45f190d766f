//! A boundary-representation shape store on an exact integer grid.
//!
//! A [`shape::Shape`] owns the geometry (points, curves, surfaces) and the
//! topology (vertices, edges, cycles, faces) of one model. Entities are only
//! ever added, every addition of topology is validated, and entities refer to
//! each other through handles that stay valid for the life of the shape.
//!
//! # The grid
//!
//! Every coordinate is a whole number of grid units, and the minimum distance
//! of a shape, below which two vertices count as one, is a whole number of
//! grid units too. Whether two points are closer than a tolerance, or a point
//! is closer than a tolerance to a curve or a surface, is decided by comparing
//! squares of integers, so the answer is exact. The transforms are the rigid
//! motions of the grid; they keep every distance, and so every decision that
//! was made about a shape before it was moved.
//!
//! # Access
//!
//! A shape is read and changed through two facets. The geometry facet,
//! [`shape::geometry::Geometry`], adds points, curves and surfaces, finds them
//! again and moves the shape. The topology facet,
//! [`shape::topology::Topology`], adds vertices, edges, cycles and faces, and
//! merges them from other shapes. The rules that the topology facet enforces
//! are stated in [`shape::validate`], and [`shape::laws`] proves that every
//! change of a shape keeps them.
//!
//! # Contracts
//!
//! Contracts are stated over the view of a shape, [`shape::ShapeView`]: the
//! sequence of payloads of each store in the order of insertion. A handle is
//! the identity of its shape, the kind of its store and a position in that
//! sequence.

pub mod geometry;
pub mod math;
pub mod shape;
pub mod topology;
