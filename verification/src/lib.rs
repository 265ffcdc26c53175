//! Interactive review of local version-control branches.
//!
//! The library holds the two verified cores of the tool: the branch
//! collector, which filters and time-orders the branches offered for
//! review, and the review session, a keystroke-driven state machine
//! that decides per branch whether to keep it, delete it, or stop.
//! All repository and terminal traffic stays outside; the library works
//! on plain values and hands back plain decisions.

pub mod branch;
pub mod collect;
pub mod session;
