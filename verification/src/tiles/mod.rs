pub mod decode;
pub mod math;
pub mod proto;
pub mod render;
pub mod fetch;
pub mod cache;
pub mod tilejson;
