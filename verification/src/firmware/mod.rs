pub mod bootstrap_pack;
pub mod image_data;
pub mod sparse;
