//! A runtime for aggregate computing: a network of devices cooperatively
//! evaluates one program, each device running it locally once per round
//! against its own sensors and a snapshot of its neighbours' previous
//! outputs, and emitting a path-indexed export for its neighbours.

pub mod builtins;
pub mod context;
pub mod execution;
pub mod export;
pub mod discovery;
pub mod idmap;
pub mod lang;
pub mod laws;
pub mod mailbox;
pub mod mailbox_impl;
pub mod message;
pub mod path;
pub mod platform;
pub mod round_vm;
pub mod sensor_id;
pub mod slot;
pub mod state;
pub mod text;
pub mod time;
pub mod value;
pub mod vm_status;

pub use path::Path;
pub use slot::Slot;
pub use value::Val;
pub use value::ValKind;
