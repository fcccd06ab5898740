//! Moving structured values across one multiplexed, item-oriented conversation.
//!
//! A value is deconstructed into the plain items its Kind sends plus one forked child
//! conversation per nested value, each registered under a handle issued by its parent's
//! counter; the receiving side rebuilds it by reading the items and resolving each handle
//! to its child. `kind` holds that protocol together with its laws, `typed` the `Kind`
//! trait that gives it to Rust types, `wire` the conversation and its items, `handle` the
//! fork registry, `value` the values and their Kinds, and `mux` the single stream that
//! carries a conversation with all its forks. `frame` plans the compositing of nested
//! render targets and `input` maps browser input to application input.
pub mod frame;
pub mod handle;
pub mod input;
pub mod kind;
pub mod mux;
pub mod typed;
pub mod value;
pub mod wire;
