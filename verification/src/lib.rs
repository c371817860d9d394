pub mod assoc;
pub mod clock;
pub mod codec;
pub mod disk;
pub mod document;
pub mod lorax;
pub mod modrinth;
pub mod recording;
pub mod shared;
pub mod stats;
pub mod testing;
pub mod store;
pub mod text;
