//! Verified core logic of the Firefam terminal client and thread runtime:
//! the slash-command popup, history cells, and the small state machines
//! around threads, plugins and the configuration home.
pub mod text;
pub mod scroll_state;
pub mod slash_command;
pub mod mention;
pub mod command_popup;
pub mod test_support;
pub mod thread;
pub mod ide_context;
pub mod plugins;
pub mod home_dir;
pub mod popup_hints;
pub mod history_cell;
pub mod thread_store;
