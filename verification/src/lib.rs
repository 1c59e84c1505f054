//! Verified core logic of the Ferrex media player.
//!
//! - `image_types`, `image_cache`, `collections`, `sorting`: image requests
//!   and the in-memory image cache (request queue, loads in flight, retry
//!   throttling, RAM budget with least-recently-used eviction, telemetry).
//! - `demand`, `image_loading`, `image_events`: turning what the UI shows
//!   into prioritised requests, starting loads, and the readiness stream.
//! - `media_store`, `media_events`, `episodes`: the media store, the
//!   server's media events applied to it and to the library lists, and
//!   episode selection.
//! - `batch`, `fetch_queue`: batched metadata fetching and the fetch queue.
//! - `player_update`, `tracks`, `subtitle`, `player_keys`, `text`: the
//!   player's message handling, track selection, subtitle parsing, shortcuts
//!   and external-player arguments.

pub mod image_types;
pub mod text;
pub mod sorting;
pub mod collections;
pub mod image_cache;
pub mod demand;
pub mod tracks;
pub mod subtitle;
pub mod batch;
pub mod fetch_queue;
pub mod image_events;
pub mod episodes;
pub mod media_store;
pub mod image_loading;
pub mod player_keys;
pub mod pipeline;
pub mod player_update;
pub mod media_events;
