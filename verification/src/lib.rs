pub mod event;
pub mod quasar;
pub mod response_type;
pub mod structs;
pub mod utils;
