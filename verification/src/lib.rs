//! skepd's verified core: the wire-level logic of the skep daemon — origins
//! and the bare-bind rule, the session tokens, the challenge and session
//! stores, the handshake's pinned order, the blocked-prefix list and the
//! credential write's ordered refusals, the HTTP/1.1 subset's head grammar,
//! replies and route answers, the change feed's merge, its opening index,
//! its sidecars' lines and coverage claims and the query parsers, the JSON
//! codec's name tables, request envelope, leaf readers and rejections, the
//! head record and its cadence, the reconstruction budget, the command
//! line, and the operator's notices.

pub mod text;
pub mod hex;
pub mod session;
pub mod origin;
pub mod origins;
pub mod auth;
pub mod history;
pub mod feed;
pub mod derived;
pub mod json;
pub mod http;
pub mod query;
pub mod lines;
pub mod fuzz;
pub mod request;
pub mod head;
pub mod hybrid;
pub mod cli;
pub mod challenges;
pub mod tags;
pub mod codec;
pub mod blocked;
pub mod sessions;
pub mod handshake;
pub mod precheck;
pub mod routes;
pub mod notice;
