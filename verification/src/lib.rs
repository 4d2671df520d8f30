//! The float-free core of the launcher: parsing, ranking, state and rules.
pub mod act_laws;
pub mod ask;
pub mod binding;
pub mod binding_laws;
pub mod bridge;
pub mod calc;
pub mod cli;
pub mod color;
pub mod config;
pub mod css;
pub mod desktop;
pub mod desktop_laws;
pub mod draw_laws;
pub mod entry;
pub mod flow_laws;
pub mod frame;
pub mod freq;
pub mod frontend;
pub mod icon;
pub mod input_laws;
pub mod json;
pub mod launcher;
pub mod layout;
pub mod layout_laws;
pub mod listview;
pub mod math;
pub mod modes;
pub mod motion;
pub mod node;
pub mod number_laws;
pub mod order;
pub mod paint;
pub mod path;
pub mod path_laws;
pub mod place;
pub mod rank_laws;
pub mod ransom;
pub mod repeat_laws;
pub mod scan;
pub mod scan_laws;
pub mod search;
pub mod settings_laws;
pub mod source_laws;
pub mod stability;
pub mod surface;
pub mod text;
pub mod text_laws;
pub mod theme;
pub mod theme_laws;
