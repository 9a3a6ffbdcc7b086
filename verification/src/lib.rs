//! The bookkeeping core of a classical molecular simulation engine, with the
//! Ewald summation of coulombic interactions at its centre.
//!
//! The crate holds what is a matter of integers, tables and order: the
//! enumeration of the points of reciprocal space, the table of phase factors
//! with its signed index and the recurrence that fills it, the structure
//! factor and its pending change after a trial move, the order in which
//! pairs of particles and of molecules are summed over, the buffers that
//! workers fill and their sum, the counters of a Monte Carlo propagator,
//! systems of particles with their kinds and interactions, and the reading
//! of input tables and XYZ files.
//!
//! Nothing here computes with real numbers. The routines are generic in the
//! numbers they carry, and the arithmetic is supplied by the caller as
//! functions; the contracts say which of those functions was applied to
//! what, and in which order.

pub mod array3;
pub mod cell;
pub mod coherence;
pub mod counter;
pub mod density;
pub mod ewald;
pub mod extract;
pub mod factors;
pub mod forces;
pub mod gather;
pub mod mc;
pub mod md;
pub mod molecular;
pub mod once;
pub mod particle;
pub mod phases;
pub mod realspace;
pub mod restriction;
pub mod topology;
pub mod universe;
pub mod xyz;
