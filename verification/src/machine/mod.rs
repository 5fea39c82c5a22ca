pub mod canvas;
pub mod cpu;
