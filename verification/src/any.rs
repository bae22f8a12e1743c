//! Type descriptions and a type-erased vector of fixed-size byte rows.

pub mod type_info;
pub mod any_vec;

pub use type_info::TypeInfo;
pub use any_vec::AnyVec;
