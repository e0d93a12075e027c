pub mod m31;
pub mod cm31;
pub mod qm31;
pub mod table;
pub mod utils;

pub mod sha256;
pub mod merkle_tree;
pub mod pow;
