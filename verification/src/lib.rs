//! Synthesis of the runtime helpers that a compiler backend needs for values
//! of a given layout: procedures that change reference counts, and code that
//! copies a value into a flat buffer.
pub mod arena;
pub mod frame;
pub mod interp;
pub mod ir;
pub mod layout;
pub mod refcount;
pub mod snapshot_bounds;
pub mod snapshot_code;
pub mod snapshot_gen;
pub mod snapshot_laws;
pub mod snapshot_run;
pub mod snapshot_sizes;
pub mod symbol;
pub mod test_options;
