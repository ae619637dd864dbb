//! Atlas Maker: the verified core of a texture-atlas builder and pixel-art
//! studio. The graphical shell lives outside this crate; everything it
//! decides about pixels, grids, atlases and undo history is here.

pub mod color;
pub mod bitmap;
pub mod paint;
pub mod line;
pub mod fill;
pub mod outside;
pub mod workspace;
pub mod text;
pub mod atlas;
pub mod studio;
