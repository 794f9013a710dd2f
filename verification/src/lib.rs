//! An animated-GIF editor: a document of frames and ranged overlays, the
//! operations on it, its history, and the decisions of the window around it.

pub mod actions;
pub mod alike;
pub mod answers;
pub mod app;
pub mod app_laws;
pub mod arrange;
pub mod bindings;
pub mod busy_laws;
pub mod canvas;
pub mod caps;
pub mod chord;
pub mod cmd;
pub mod color;
pub mod control_laws;
pub mod coverage;
pub mod desktop;
pub mod dialogs;
pub mod dither;
pub mod document;
pub mod drag;
pub mod drag_laws;
pub mod edit_laws;
pub mod edits;
pub mod encode;
pub mod export_laws;
pub mod fit;
pub mod gif_in;
pub mod gif_laws;
pub mod gif_out;
pub mod group;
pub mod history;
pub mod i18n;
pub mod import;
pub mod import_laws;
pub mod job_laws;
pub mod keymap;
pub mod keymap_laws;
pub mod merge;
pub mod model;
pub mod motion;
pub mod moving;
pub mod moving_laws;
pub mod msg;
pub mod overlay_laws;
pub mod paint_laws;
pub mod picture_laws;
pub mod places;
pub mod placing_laws;
pub mod raster;
pub mod render;
pub mod retain;
pub mod retain_laws;
pub mod rounding;
pub mod scope;
pub mod screen;
pub mod selection;
pub mod settings;
pub mod single;
pub mod snap;
pub mod soundness;
pub mod still;
pub mod strip;
pub mod text;
pub mod text_laws;
pub mod tools;
pub mod turned;
pub mod update;
pub mod window_laws;
pub mod wording;
pub mod work;
