//! A pull-based metrics collection core: named, labeled instruments are
//! identified by a hashed `Token`, stored in a concurrent in-memory registry,
//! and served to polling collector clients over a length-prefixed binary
//! wire protocol with versioned metadata suppression.

pub mod token;
pub mod wire;
pub mod codec;
pub mod store;
pub mod instrument;
pub mod registry;

pub use instrument::{Counter, CounterWrite, Write};
pub use registry::SharedStore;
pub use token::Token;
pub use wire::{InstrumentKind, Metadata, Query, QueryResult, Value, WireError};
