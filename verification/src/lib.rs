pub mod context;
pub mod data_uri;
pub mod fine;
pub mod geometry;
pub mod svg_image;
pub mod tiles;
pub mod text;
pub mod threads;
pub mod page_args;
pub mod argument_laws;
pub mod drawing_laws;
pub mod image_laws;
pub mod rendering_laws;
