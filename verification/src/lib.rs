//! Streaming iterators: a two-phase, verified cursor protocol.
//!
//! A [`StreamingIterator`] exposes the elements of a sequence one at a time,
//! by reference into iterator-owned storage rather than by value.  Its
//! functionality rests on a pair of primitive operations, `advance` and `get`,
//! which together split the work of an ordinary iterator's `next` in half:
//! `advance` moves the cursor one position forward, and `get` reads the
//! element at the current position without moving.  The split is what lets
//! adaptors such as a filter advance the inner cursor several times while
//! inspecting intermediate `get` results before settling on a position.
//!
//! Every cursor carries a mathematical model: the sequence of elements still
//! ahead of it (`upcoming`) and the element under it (`current`).  The
//! contracts of the protocol, and of each adaptor, are stated over this model
//! and verified.

mod bridge;
mod cursor;
mod fused;
mod laws;
mod model;
mod transform;
mod window;

pub use bridge::cloned_model;
pub use bridge::convert;
pub use bridge::lemma_cloned_model;
pub use bridge::lemma_owned_model;
pub use bridge::owned_model;
pub use bridge::Cloned;
pub use bridge::Convert;
pub use bridge::Owned;
pub use cursor::hint_ok;
pub use fused::fuse_model;
pub use fused::lemma_fuse_model;
pub use fused::Flicker;
pub use fused::Fuse;
pub use cursor::peeks;
pub use cursor::StreamingIterator;
pub use laws::lemma_count_within_size_hint;
pub use laws::lemma_filtered_sound;
pub use laws::lemma_mapped_pointwise;
pub use laws::lemma_peek_idempotent;
pub use laws::lemma_take_skip_complement;
pub use model::accepts;
pub use model::collected;
pub use model::filtered;
pub use model::first_match;
pub use model::fn_of;
pub use model::fn_total;
pub use model::image;
pub use model::is_subseq_of;
pub use model::pred_of;
pub use model::pred_total;
pub use model::dropped_while;
pub use transform::filter_map_model;
pub use transform::filter_model;
pub use transform::lemma_filter_map_model;
pub use transform::lemma_filter_model;
pub use transform::lemma_mapped_model;
pub use transform::mapped_model;
pub use transform::Filter;
pub use transform::FilterMap;
pub use transform::Mapped;
pub use window::lemma_skip_model;
pub use window::lemma_skip_while_model;
pub use window::lemma_take_model;
pub use window::skip_model;
pub use window::skip_while_model;
pub use window::take_model;
pub use window::Skip;
pub use window::SkipWhile;
pub use window::Take;
