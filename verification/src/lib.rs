//! A Mach-O format engine: parsing of headers and load commands, the symbol
//! table, the dyld bind and export streams, fat containers, and the rewriting
//! of an image after its layout was edited.

pub mod bind;
pub mod cache;
pub mod commands;
pub mod defs;
pub mod desc;
pub mod diag;
pub mod exec;
pub mod export;
pub mod fat;
pub mod image;
pub mod layout;
pub mod leb128;
pub mod load_commands;
pub mod rewrite;
pub mod settled;
pub mod stable;
pub mod symbols;
pub mod symtab;
pub mod util;
