//! Session core of a peer-to-peer chat: identities bound to Ed448 keys, an
//! address book of known peers, the handshake and the signed, length-prefixed
//! frames that travel between them.

pub mod address;
pub mod book;
pub mod conns;
pub mod consts;
pub mod crypto;
pub mod payload;
pub mod protocol;
pub mod util;
pub mod wire;

pub use address::{decode_address, UserData, UserDataRaw};
pub use payload::MessageForNetwork;
pub use protocol::Message;
pub use util::{passwd_gen, DeferWrapper};
pub use wire::greeting_auth;
