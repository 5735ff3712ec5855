//! Wire-format core of an AMQP 1.0 implementation: a codec between typed
//! values and the AMQP byte encoding, and an incremental frame decoder.
//!
//! - `types`: the values that the codec reads and writes.
//! - `codec`: decoding and encoding of every type, and what holds of the
//!   two together.
//! - `protocol`: the protocol header and the described types.
//! - `framing`: frames and their headers.
//! - `io`: the frame decoder, a state machine over a growing buffer.
//! - `buffer`, `external`: what is taken on trust of `bytes` and of the
//!   standard library.
//!
//! Every function is verified against a model of the wire format: the
//! `spec_…` function that its contract names. The executable types are
//! related to the model by their `deep_view`.

pub mod errors;
pub mod buffer;
pub mod external;
pub mod types;
pub mod codec;
pub mod protocol;
pub mod framing;
pub mod io;
