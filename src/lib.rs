//! Bounded byte windows over a shared backing store, and a search for
//! ISO-BMFF boxes (QuickTime/MP4 atoms) built on them.
pub mod window;
pub mod scan;
