pub mod clock;
pub mod codec;
pub mod json;
pub mod model;
pub mod render;
pub mod scope;

pub use json::Json;
pub use scope::AuditScope;
