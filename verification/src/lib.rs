//! Small data structures for tight, periodically driven loops, where a fixed
//! memory footprint matters more than flexibility.
//!
//! - [`RingBuffer`] is a FIFO queue of fixed capacity over a circular backing
//!   store that is allocated once.
//! - [`ElasticRingBuffer`] wraps one and bends to requests that the queue
//!   cannot meet as it stands: it repeats what it has when asked for more,
//!   and drops evenly when more is queued than its ideal maximum.
//! - [`Clock`] counts ticks and wraps at a period; [`Timer`] reports rising
//!   and falling edges against an absolute time.
//!
//! Each buffer is described twice. Its *state* ([`fifo::RingState`],
//! [`elastic::ElasticState`]) is the queue it stands for, and the contracts
//! of the operations say what becomes of that queue. Its *layout*
//! ([`layout::RingLayout`], [`elastic::ElasticLayout`]) is the backing store
//! with its two cursors, and the contracts also say how the cursors move.
//! The lemmas in [`layout`] show that the layout always stands for the state.

pub mod clock;
pub mod cloning;
pub mod elastic;
pub mod fifo;
pub mod layout;
pub mod ring;
pub mod sampling;

pub use clock::{next_timer_event, Clock, Timer, TimerEvent};
pub use elastic::{ElasticPopResult, ElasticRingBuffer};
pub use ring::RingBuffer;
