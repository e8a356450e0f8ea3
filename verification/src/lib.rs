//! Verified core of two Stream Deck plugins: the widget runtime and renderers, and
//! the starter-pack actions (audio, profile pagination, system monitor).

pub mod text;
pub mod pixel;
pub mod settings;
pub mod model;
pub mod render;
pub mod live;
pub mod audio;
pub mod profile_pagination;
pub mod system_monitor;
pub mod keyed;
pub mod fetch;
pub mod runtime;
pub mod compat;
pub mod switch_profile;
