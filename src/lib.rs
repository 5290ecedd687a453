//! Concurrency and buffering toolkit: cancellation contexts, waiter
//! bookkeeping, shared byte chunks and queues of them, a ring buffer and a
//! backpressured stream buffer.
pub mod bytes;
pub mod conf;
mod context;
pub mod error;
pub mod filesplit;
mod list;
pub mod message;
pub mod sync;
mod timeutil;
mod utils;

pub use context::{done_from, done_spec, lemma_child_done, Context};
pub use list::VecDequeMax;
pub use timeutil::{
    random, random_alphabet, randoms, randtms, randtms_ang, range_from, times, tms_now_since,
    tms_since,
};
pub use utils::{
    be_bytes, be_value, byte_2i, hex2, hex_digits, hex_join, i2_byte, lemma_hex_join_len, md5_of,
    md5str, md5strs, occurs_except, parse_noip_addr, pow256, sprint_hex, sprints_hex,
};
