//! Wire-message envelope layer for registering chain-hosted abstract
//! accounts: typed request and response messages, a deterministic tagged
//! binary encoding for them, and the type-erased envelope that carries an
//! encoded request through a generic dispatch pipeline.

pub mod decode;
pub mod encode;
pub mod envelope;
pub mod laws;
pub mod messages;
pub mod wire;

pub use envelope::DispatchEnvelope;
pub use messages::Coin;
pub use messages::MsgRegisterAccount;
pub use messages::MsgRegisterAccountResponse;
pub use wire::DecodeError;
