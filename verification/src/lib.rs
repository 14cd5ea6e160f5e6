pub mod api;
pub mod detect;
pub mod generate;
pub mod model;
pub mod text;
pub mod wizard;
