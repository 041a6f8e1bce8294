//! Reads the projects of a visual programming environment for robots: archives of
//! program files, each an XML description of a diagram of blocks that wires of
//! control flow connect.
//!
//! The heart of the crate is the document builder in [`ev3::parser`], which takes the
//! XML events of one program file and gathers the blocks and the wires of its diagram.
//! What it does with every list of events is written down in [`ev3::grammar`], and
//! what follows from that for all inputs is proved in [`ev3::laws`].
pub mod error;
pub mod ev3;
pub mod idmap;
pub mod number;
pub mod text;
pub mod utils;
