pub mod chunk;
pub mod codec;
pub mod data_files;
pub mod downgrade;
pub mod error;
pub mod ieee;
pub mod keymap;
pub mod layout;
pub mod level_dat;
pub mod mapping;
pub mod nbt_bytes;
pub mod nbt;
pub mod pipeline;
pub mod report;
pub mod text;
pub mod version;
