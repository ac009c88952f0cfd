//! The logic of a small Matrix homeserver's HTTP layer, verified.
//!
//! What a handler computes and decides stands here, over plain values: requests are read, checked
//! and answered; conversations with other servers and with the store are state machines that say
//! what is to be done next and are told what came of it. Sockets, the database, the clock of a
//! wait and the room state machine are outside.
//!
//! - Texts and values: [`text`], [`textset`], [`table`], [`json`], [`ids`], [`event`].
//! - Answers: [`response`].
//! - The client API: [`stubs`], [`keys`], [`rooms`], [`membership`], [`messages`], [`sync`].
//! - The federation API, inbound: [`auth`], [`send`], [`transaction`], [`get_missing_events`],
//!   [`backfill`], [`make_join`], [`send_join`], [`make_leave`], [`invite`].
//! - Federation, outbound: [`client`], [`sender`], [`backoff`], [`join`], [`leave`],
//!   [`backfill_out`], [`key_resolver`].
//! - Rooms and storage: [`room_actor`], [`store`].
//! - Servers with links that can be cut: [`harness`].

pub mod auth;
pub mod backfill;
pub mod backfill_out;
pub mod backoff;
pub mod client;
pub mod event;
pub mod get_missing_events;
pub mod harness;
pub mod ids;
pub mod invite;
pub mod join;
pub mod json;
pub mod key_resolver;
pub mod keys;
pub mod leave;
pub mod make_join;
pub mod make_leave;
pub mod membership;
pub mod messages;
pub mod response;
pub mod room_actor;
pub mod rooms;
pub mod send;
pub mod send_join;
pub mod sender;
pub mod store;
pub mod stubs;
pub mod sync;
pub mod table;
pub mod text;
pub mod textset;
pub mod transaction;
