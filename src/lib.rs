//! Trust establishment for player logins: verification and decoding of
//! identity data forwarded by a Velocity proxy, and the server's RSA key store
//! used for the encryption handshake of direct logins.
pub mod key_store;
pub mod velocity;
pub mod wire;
