//! An external-memory key-sort and bounded-emission engine with a
//! PostgreSQL binary-COPY encoder.
//!
//! Rows are admitted together with a monotone position and grouped under
//! a 20-byte SHA-1 targeting key ([`keys`]). The session ([`session`])
//! buffers records ([`record`]) under a byte budget; when the budget
//! would be exceeded the batch is sorted ([`sortvec`]) and spilled as an
//! encoded run ([`runfile`]). Sorting merges all runs ([`merge`]) into
//! the intermediate sorted file, which emission reads back: batched
//! iteration applies a per-key cap ([`cap`]), and the binary-COPY
//! encoder ([`copy_out`]) renders the capped stream bit-exactly, with
//! geometry as EWKB points ([`ewkb`]) and keys in hexadecimal
//! ([`hexenc`]). Row validation ([`validator`]) counts failures and
//! keeps an error-log image. Integer framing lives in [`wire`], the
//! string boundary in [`textenc`], and the error type in [`errors`].

pub mod cap;
pub mod copy_out;
pub mod errors;
pub mod ewkb;
pub mod hexenc;
pub mod keys;
pub mod merge;
pub mod record;
pub mod runfile;
pub mod session;
pub mod sortvec;
pub mod textenc;
pub mod validator;
pub mod wire;
