//! Decorators for byte streams: end-of-stream lookahead, position tracking,
//! a discard sink/source, guaranteed-fill buffering with bounded delimiter
//! search, retry-until-full reading, and a short-read injector for tests.
//!
//! Every decorator wraps a value of any type implementing the [`ReadStream`]
//! capability and implements that capability itself, so decorators layer
//! transparently over in-memory buffers, other decorators, or any stream a
//! caller models.

mod eof;
mod ignore;
mod many;
mod pos;
mod short;
mod stream;
mod var_buf;

pub use crate::eof::Eof;
pub use crate::ignore::Ignore;
pub use crate::ignore::SeekFrom;
pub use crate::many::ReadMany;
pub use crate::pos::lemma_pos_delivery_count;
pub use crate::pos::lemma_position_accuracy;
pub use crate::pos::lemma_position_after_adds;
pub use crate::pos::lemma_total_len_nonneg;
pub use crate::pos::position_after;
pub use crate::pos::saturating_add_u64;
pub use crate::pos::total_len;
pub use crate::pos::Pos;
pub use crate::short::ShortRead;
pub use crate::stream::delivery_run;
pub use crate::stream::interrupted_run;
pub use crate::stream::lemma_delivery_run_refl;
pub use crate::stream::lemma_delivery_run_step;
pub use crate::stream::outcome_bytes;
pub use crate::stream::outcomes_bytes;
pub use crate::stream::read_run;
pub use crate::stream::lemma_interrupted_run_refl;
pub use crate::stream::lemma_interrupted_run_step;
pub use crate::stream::Cursor;
pub use crate::stream::ReadOutcome;
pub use crate::stream::ReadStream;
pub use crate::stream::StreamError;
pub use crate::var_buf::VarBufReader;
pub use crate::var_buf::first_byte_at;
pub use crate::var_buf::has_byte;
pub use crate::var_buf::delivered;
pub use crate::var_buf::left_over;
pub use crate::var_buf::valid_steps;
pub use crate::var_buf::lemma_consume_conservation;
pub use crate::var_buf::lemma_fill_growth_chain;
pub use crate::var_buf::FILL_CHUNK;
