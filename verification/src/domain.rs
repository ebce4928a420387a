pub mod impedance;
pub mod measurement;
pub mod user;
pub mod weight;
