pub mod detection;
pub mod text;
pub mod utils;
