//! Playout scheduling core: media items, their ordering, the folder
//! scheduler that hands out items forever, filler lists, and the decisions
//! of the decoder-to-encoder byte relay.
pub mod media;
pub mod order;
pub mod folder;
pub mod filler;
pub mod relay;
