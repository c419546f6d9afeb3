//! Sources that come with the engine.

pub mod literal;
pub mod named;

pub use self::literal::Literal;
pub use self::named::Named;
