pub mod dict;
pub mod ring;
pub mod spike;
pub mod text;

pub use spike::Phase;
