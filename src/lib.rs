// Turns queued text documents into spoken audio: line repair and splitting
// into work items, synthesis markup, a content-addressed audio cache, and the
// low-water-mark refill and idle-exit rules of the playback loop.

pub mod cache;
pub mod inbox;
pub mod queue;
pub mod text;
