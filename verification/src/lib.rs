//! Distributed point functions over a small ring, with verified share
//! arithmetic and verified key generation and evaluation.

pub mod dpf;
pub mod group;
pub mod input;
pub mod pika;
pub mod prg;
pub mod ring;

pub use group::{FromRng, Group};
pub use ring::RingElm;
