# game_engine

The verified core of a small sprite editor that generates sprites on a
ComfyUI server.

- `src/` — the library, verified with Verus:
  - `crop` — background removal (flood fills from the four corners, each
    clearing every connected pixel similar to its corner's color), content
    bounds and padded crop, PNG in and out;
  - `pixels` — RGBA buffers and the calls into the `image` crate;
  - `json`, `workflow` — the JSON model and its parser call, and the
    workflow rules: file names,
    workflow listing, API-format detection, subgraph check, prompt injection;
  - `comfy`, `sprite_job` — the server's endpoints and records, and sprite
    generation as a state machine driven by the caller;
  - `gui`, `input`, `scene` — editor panel state, key and button state, scene;
  - `text` — character-level string helpers.
- `tests/` — tests of the library.
- `app/` — the windowed program: winit, wgpu, egui, and the HTTP client
  that performs the sprite job's actions.
