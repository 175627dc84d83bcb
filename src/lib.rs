//! A local package manager core: package designators, host adapters, an
//! object storage layout, and the install and run workflows built on them.

pub mod designator;
pub mod storage;
pub mod memory;
pub mod host;
pub mod archive;
pub mod install;
pub mod package;
pub mod run;
