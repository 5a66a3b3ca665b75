//! Wire codec for a length-prefixed, state-scoped binary game protocol:
//! variable-length integers, field encodings, packet framing and the
//! per-direction packet tables.

pub mod clientbound;
pub mod data_types;
pub mod legacy;
pub mod numeric;
pub mod packet;
pub mod schema;
pub mod serverbound;
pub mod var_int;
