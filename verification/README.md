# obs_rs

The engine of a screen recorder: it composites a scene, mixes its sound, shows
a preview of both, and records or broadcasts them.

Everything the engine decides and computes is in `src/` and is verified with
Verus. Threads, devices, files and floating point are in `app/`, which performs
what is decided. Times are nanoseconds, positions 256ths of a pixel and levels
millionths of a decibel; `app/` converts.

| module | what it holds |
| --- | --- |
| `engine` | the commands, the sources of a scene and their states, recordings and broadcasts, the loop's turns, what the application reads back |
| `scene`, `fades` | where an item is drawn, and how it comes and goes |
| `backend` | pictures drawn on this side, encoders and their branches, shared captures, the memory a frame reaches the preview through, the preview itself |
| `output` | tracks and their order, containers, broadcasts, screenshots, replays, room on disk |
| `audio` | devices, the mixes and what feeds them, filters, meters, the thread's passes |
| `load`, `stats`, `share` | what the graph says of itself, and what is shown of it |
| `table`, `text`, `fixed` | an ordered table by id, text, and whole-number arithmetic |

Public functions whose names begin with `law_` state what holds across several
functions.
