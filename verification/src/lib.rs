//! Companion infoview for the Zed Lean 4 extension: a language server proxy
//! that follows the cursor and asks the Lean server for what there is to show,
//! and a watcher that draws it.

pub mod convert;
pub mod json;
pub mod laws;
pub mod messages;
pub mod model;
pub mod proxy;
pub mod render;
pub mod rpc;
pub mod state;
pub mod table;
pub mod text;
pub mod watch;
