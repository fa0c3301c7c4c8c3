//! Single-stroke gesture recognition: the template library, the
//! rotation-tolerant matching of a normalized shape against it, and the
//! capture of a stroke from pointer events.
//!
//! The library holds the rules and the bookkeeping. Coordinate geometry is
//! left to the caller: coordinates travel through here as bit patterns, and
//! distances as ordered integer scores.

pub mod capture;
pub mod library;
pub mod matcher;
pub mod score;
pub mod search;
pub mod shape;
