//! Static checks of the RSScript compiler front end over parsed programs.
pub mod chars;
pub mod typestr;
pub mod names;
pub mod ast;
pub mod types;
pub mod diag;
pub mod aliases;
pub mod syntax;
pub mod derives;
pub mod analyzer;
pub mod native;
pub mod native_scan;
pub mod task_group;
pub mod calls;
pub mod items;
pub mod declarations;
pub mod generics;
pub mod digest;
pub mod package;
pub mod execution;
pub mod cargo_manifest;
pub mod variants;
pub mod exports;
pub mod patterns;
pub mod flow;
pub mod call_args;
pub mod imports;
