use vstd::prelude::*;

pub mod layout;
pub mod device;
pub mod table;
pub mod fs;
pub mod model;
pub mod laws;
pub mod memory;
pub mod boot;
pub mod pci;
pub mod virtio;
pub mod console;
pub mod keyboard;
pub mod text;
pub mod cli;
pub mod shell;
pub mod terminal;
pub mod host;
