pub mod text;
pub mod assoc;
pub mod highlight;
pub mod plan;
pub mod bible;
pub mod archive;
pub mod animation;
pub mod theme;
pub mod app;
pub mod keys;
pub mod view;
pub mod screen;
pub mod translation;
