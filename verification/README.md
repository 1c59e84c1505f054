# ferrex_player

The logic of the Ferrex media player, verified with Verus: every function in
`src/` carries a `requires`/`ensures` contract over a mathematical model of
its data, and Verus proves each body against it.

## Layout

- `src/` — the verified library.
  - `image_types`, `image_cache`, `collections`, `sorting`: image requests and
    the in-memory image cache (priority queue, loads in flight, retry
    throttling, RAM budget with least-recently-used eviction, telemetry).
    The concurrent map and the priority queue come from `dashmap` and
    `priority-queue`, behind small trusted wrappers in `collections`.
  - `demand`, `image_loading`, `image_events`: turning what the UI shows into
    prioritised requests, filling the pool of loads, and the image-readiness
    event stream (reconnect backoff, base64 payloads).
  - `media_store`, `media_events`, `episodes`, `batch`, `fetch_queue`: the
    media store and the server's media events, episode selection, batched metadata fetching and its verification, and the
    metadata fetch queue.
  - `player_update`, `tracks`, `subtitle`, `player_keys`, `pipeline`, `text`:
    the player's message handling, track selection
    and labels, subtitle parsing, keyboard shortcuts and external-player
    arguments, image pipeline helpers, and string utilities.
- `tests/` — tests on concrete values, run against the compiled library.
- `app/` — the runtime around the library: threads, clocks, processes, the
  file system, and the floating-point playback state.

Each module states its laws (properties across calls) as public proof
functions named `lemma_*`.
