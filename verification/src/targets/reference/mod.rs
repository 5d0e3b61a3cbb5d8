pub mod c;
pub mod cpp;
