//! Execution traces, transition constraints and proof records for two
//! sequential computations proved with a STARK engine over a 128-bit prime field.

pub mod air;
pub mod codec;
pub mod field;
pub mod trace;

pub use air::{BoundaryAssertion, Computation, FreshAir, NUM_ASSERTIONS};
pub use codec::{from_data, parse_felt, to_data, to_decimal, CodecError, Data};
pub use field::MODULUS;
pub use trace::{
    build_cubic_trace, build_trace, get_pub_inputs, ConfigError, ExecutionTrace, InputArg,
    PublicInputs,
};
