//! Poker hand strength evaluation.
//!
//! A hand of five to seven cards is encoded as a 64-bit card mask with one
//! bit per (rank, suit) pair, classified into its poker category with bitwise
//! operations, and packed into a single ordinal code whose plain integer
//! ordering matches hand strength.  Codes can be decoded for display, and a
//! batch of hands can be grouped into tiers of equal strength.

pub mod batch;
pub mod bits;
pub mod decode;
pub mod eval;
pub mod hand;
pub mod laws;
