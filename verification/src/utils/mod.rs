//! Helpers shared by the rest of the library.

pub mod bytes;
pub mod error;
pub mod goodness;
pub mod http;
pub mod md5;
pub mod random;
pub mod roots;
pub mod spread;
pub mod stats;
pub mod text;
pub mod wide;
pub mod window;
pub mod words;

pub use error::{PhantomError, PhantomResult};
