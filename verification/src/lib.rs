pub mod encode;
pub mod format;
pub mod laws;
pub mod recovery;
pub mod saver;
pub mod text;
