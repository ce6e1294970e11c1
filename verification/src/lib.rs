//! A port-forward tunnel over an encrypted relay: the wire protocol, the table
//! of authorized initiators and the decisions of the tunnel's two ends.
pub mod bytes;
pub mod crypto;
mod entropy;
pub mod hexcode;
pub mod base64url;
pub mod text;
pub mod proto;
pub mod authorized;
pub mod tcp;
pub mod gate;
pub mod session;
