//! Request-side definitions: request configuration, line requests, edge
//! events and their buffers.

pub use crate::edge_event::Event;
pub use crate::event_buffer::Buffer;
pub use crate::event_buffer::Events;
pub use crate::line_request::Request;
pub use crate::request_config::Config;
