pub mod ids;
pub mod keyed;
pub mod logging;
pub mod text;
