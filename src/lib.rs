// A registry of named handlers over erased values (`fabric`), and a
// memoizing wrapper around a computation with composition operations
// (`functor`).

pub mod fabric;
pub mod functor;
pub mod signature;
pub mod table;
pub mod value;
