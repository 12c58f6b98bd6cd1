//! Host-side bridge to remote scripted computers: world positions, the table wire codec,
//! the identity registry, handshake validation and the connection pump's decisions.
pub mod handshake;
pub mod position;
pub mod pump;
pub mod registry;
pub mod table;

pub use handshake::{
    claim_connection, parse_client_id, validate_handshake, ConnectError, HandshakeRejected,
};
pub use position::{MinecraftFacingDirection, MinecraftPosition};
pub use pump::{inbound_action, InboundAction, IncomingFrame};
pub use registry::{ClientId, IdentityCollision, IdentityRegistry};
pub use table::{FormatError, Json, JsonMember, LuaKeyValuePair, PairedLuaTable, TableValue};
