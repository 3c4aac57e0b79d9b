//! Filtering of BNX molecule files: a streaming assembler that groups lines
//! into molecule records, and a threshold filter on each record's length and
//! label count.

pub mod assembler;
pub mod laws;
pub mod length;
pub mod line;
pub mod molecule;

pub use assembler::{Assembler, Step, assemble};
pub use length::Length;
pub use line::{LineKind, classify, label_count, parse_or_zero, tab_field};
pub use molecule::{
    Molecule, emit_if_accepted, filter_molecule, process_bnx_file_with_constants, write_molecule,
};
