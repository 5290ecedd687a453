//! Shared byte chunks, queues of chunks, a ring buffer and a stream buffer.
mod bytebox;
mod bytebuf;
mod circle;
mod ring;
mod stream;

pub use bytebox::{lemma_cut_rejoins, ByteBox};
pub use bytebuf::{concat_chunks, lemma_push_cut_round_trip, ByteBoxBuf};
pub use circle::CircleBuf;
pub use stream::{lemma_backpressure, push_model, push_blocked, raised_max, ByteSteamBuf, Progress};
pub use ring::{lemma_ring_fifo, pop_all, pop_model, put_all, put_model, RingBuf};
