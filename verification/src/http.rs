//! The HTTP grammars the middleware reads: entity tags, cookies, dates,
//! quality values, content-coding preferences, methods and forwarding
//! fields.

pub mod etag;
pub mod cookie;
pub mod quality;
pub mod coding;
pub mod date;
pub mod method;
pub mod forwarded;
