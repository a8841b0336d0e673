//! A verified Intcode virtual machine and the small puzzle kit around it.
//!
//! The core is the machine: a program is a flat, growable tape of signed
//! integers walked by an instruction pointer, with positional, immediate
//! and relative addressing, line-oriented integer I/O, and a suspend and
//! resume execution model whose snapshots let machines be chained into
//! pipelines. Around it stand the consumers the machine serves — fuel
//! sums, password digit rules, wire geometry, orbit maps, layered images
//! and amplifier chains — each verified against its own contract.

pub mod amplifier;
pub mod digits;
pub mod fuel;
pub mod image;
pub mod machine;
pub mod opcode;
pub mod orbits;
pub mod pairs;
pub mod password;
pub mod tape;
pub mod text;
pub mod wires;

pub use digits::digits_vec_to_num;
pub use digits::num_to_digits_vec;
pub use text::parse_multiple_utf8_num_repr_lns;
pub use text::utf8_dec_num_repr_to_num;
