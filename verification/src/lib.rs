pub mod geometry;
pub mod limits;
pub mod renderer;
pub mod font;
pub mod widgets;
pub mod layout;
pub mod events;
pub mod draw;
pub mod parser;
pub mod reload;
pub mod host;
