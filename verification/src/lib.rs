//! Inline compaction for a bridge to the Responses API: what a request asks for, what a response
//! leaves behind, and how the state in between is kept.
//!
//! A request of a lane is prepared with the state that its lane has stored ([`prepare`],
//! [`replay`], [`recognition`], [`fingerprint`], [`transcript`]). The response stream is read
//! ([`sse`], [`upstream`], [`keys`]) and comes to a new state ([`commit`]), which is sealed, written
//! in steps that a crash leaves whole, and read back ([`sidecar`], [`durability`], [`stored`],
//! [`fields`], [`marking`]). How a process becomes the one writer of the state directory stands in
//! [`writer`]. What holds from one request to the next is stated in [`lineage`], and that an
//! encoding spells one value in [`spelling`]. Around that stand the limits on parallel requests
//! ([`capacity`]), the credentials ([`auth`]), the settings ([`config`]), the lanes ([`lanes`]),
//! their recovery ([`recovery`]) and what is told of the mount of the state directory ([`mount`]).

use vstd::prelude::*;

pub mod auth;
pub mod canonical;
pub mod capacity;
pub mod commit;
pub mod config;
pub mod decimal;
pub mod digest;
pub mod durability;
pub mod encoding;
pub mod error;
pub mod fields;
pub mod fingerprint;
pub mod json;
pub mod keys;
pub mod lanes;
pub mod lineage;
pub mod marking;
pub mod mount;
pub mod parsing;
pub mod parts;
pub mod prepare;
pub mod recognition;
pub mod recovery;
pub mod replay;
pub mod report;
pub mod request;
pub mod sidecar;
pub mod spelling;
pub mod sse;
pub mod stored;
pub mod text;
pub mod transcript;
pub mod upstream;
pub mod writer;
