pub mod m31;
pub mod cm31;
pub mod qm31;
pub mod algebra;
pub mod ring;
pub mod squares;
