//! The core of a two-pass linker for 16-bit OMF object modules and
//! libraries, which produces segmented MZ executables.
//!
//! Pass 1 (`pass1`, `resolve`, `memory_map`) collects names, segments, groups
//! and symbols from the records of the object modules (`record`), pulls the
//! modules that define what is left undefined from the libraries
//! (`library`), and lays the segments out in memory. Pass 2 (`pass2`) copies
//! the data into the image, applies the fixups, and puts the executable
//! together (`dosexe`). Everything that the passes share is held in the
//! link state (`linkstate`), of which `linkmap` gives the addresses for a
//! report.

pub mod dosexe;
pub mod group;
pub mod image_laws;
pub mod index_map;
pub mod library;
pub mod linkmap;
pub mod linker_error;
pub mod linkstate;
pub mod lnames;
pub mod memory_map;
pub mod object;
pub mod omf_vec;
pub mod pass1;
pub mod pass2;
pub mod record;
pub mod resolve;
pub mod segment;
pub mod seq_search;
pub mod symbols;
