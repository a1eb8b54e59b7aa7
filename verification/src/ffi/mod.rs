//! Text formats handed across the app boundary.

pub mod text;
pub mod serializer;
pub mod media;
