//! Block-wise memory routines, batch arithmetic, batch codecs, hashing and
//! slice iteration.

pub mod block_memory;
pub mod codec;
pub mod hashing;
pub mod math;
pub mod vector_iter;

pub use self::block_memory::SIMDMemory;
pub use self::codec::SIMDSerializer;
pub use self::hashing::SIMDHash;
pub use self::math::SIMDMath;
pub use self::vector_iter::SIMDIterator;
