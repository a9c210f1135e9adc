//! Recipient validation for two Postfix-facing line protocols.
//!
//! The library holds the per-connection protocol logic of two small TCP
//! daemons: a policy-delegation daemon (accept or defer a message based on
//! whether every declared recipient resolves to a known account) and a
//! TCP-map lookup daemon (`get <key>` answered with a value list or an
//! error). Everything here is pure byte-level logic: line framing, request
//! parsing, address classification, per-block aggregation and reply
//! formatting. The network edges (sockets and the outbound HTTP lookup)
//! live outside the library and exchange plain byte vectors with it.

pub mod classify;
pub mod framing;
pub mod lookup;
pub mod map_session;
pub mod policy_session;
pub mod text;
