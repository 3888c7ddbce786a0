//! What holds of the library as a whole.

pub mod conversion;
pub mod convert;
pub mod framing;
pub mod infoview;
pub mod json;
pub mod lookup;
pub mod messages;
pub mod proxy;
pub mod shown;
pub mod steps;
pub mod text;
pub mod traffic;
pub mod views;
pub mod watch;
