//! Packaging of Gleam applications into single native executables.

pub mod archive;
pub mod builder;
pub mod bytes;
pub mod cli;
pub mod codec;
pub mod digest;
pub mod erl;
pub mod erts;
pub mod format;
pub mod image;
pub mod launcher;
pub mod order;
pub mod pack;
pub mod paths;
pub mod payload;
pub mod plan;
pub mod project;
pub mod raw;
pub mod strip;
pub mod target;
pub mod text;
pub mod tree_shake;

pub use crate::builder::{
    check_cargo_zigbuild, check_gleam, check_zig, find_boot_file, gleam_build,
    gleam_erlang_build_dir, gleam_validate_entrypoint,
};
pub use crate::digest::HashingWriter;
pub use crate::format::Metadata;
pub use crate::image::assemble_binary;
pub use crate::target::{is_cross_target, output_filename};
