pub mod custom;
pub mod uniform;
