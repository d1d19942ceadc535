# VoxWeb

A voxel sandbox that runs in the browser, alone or with friends over peer-to-peer connections.
One player hosts: the host's world decides, the others predict and are corrected.

- `src/` is the library: everything that decides or computes on whole numbers and text. Its
  functions have contracts that Verus proves; the one that draws a seed has nothing to promise,
  since any number can come out. Laws that span several functions are proved as functions whose
  names start with `law_`.
- `tests/` runs the library on concrete values, with the outside crates linked.
- `app/` is the browser around it: drawing, sockets, files, and the floating-point arithmetic of
  the camera and of movement. It asks the library what to do and does it.

Where to look:

| topic | modules |
|---|---|
| blocks, chunks, stored fields, free objects | `block`, `chunk`, `field`, `surface`, `object` |
| messages and how they travel | `protocol`, `transport`, `relay` |
| finding and connecting players | `signaling`, `json`, `ice`, `peer`, `room`, `host`, `remote` |
| the world on screen | `chunk_assembler`, `chunk_loader`, `mesh_jobs`, `raycast`, `interp` |
| the game | `game`, `actions`, `prediction`, `hotbar`, `chat`, `input`, `events` |
| menus and pages | `app_state`, `lobby`, `menus`, `shell`, `hud` |
| saved worlds | `storage`, `world_records`, `persistence` |
| tools | `text`, `maps` |

Positions, angles and speeds are floating point. The library carries them as their bits and
never computes with them. Times are whole microseconds.
