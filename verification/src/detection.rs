pub mod dockerfile;
pub mod project_type;
pub mod version;
