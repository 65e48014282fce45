//! The unit model: the typed form of one unit definition, the rules it must
//! obey, and the errors raised while loading and ordering units.

pub mod errors;
pub mod text;
pub mod types;
