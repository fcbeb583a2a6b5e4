pub mod array;
pub mod atomic_array;

pub use self::array::Array;
