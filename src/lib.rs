pub mod builder;
pub mod games;
pub mod index;
pub mod install;
pub mod laws;
pub mod scan;
pub mod thunderstore;
