pub mod atom;
pub mod bigrat;
pub mod coefficient;
pub mod convert;
pub mod digits;
pub mod error;
pub mod euclid;
pub mod laws;
pub mod merge;
pub mod normalize;
pub mod ordering;
pub mod poly;
pub mod rational;
pub mod state;
