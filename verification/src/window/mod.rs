pub mod canvas;
pub mod event;
