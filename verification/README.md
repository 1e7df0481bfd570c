# lianli_link

The decisions of a daemon that drives Lian Li LCD panels, wireless fan groups and HydroShift II
coolers, written in Verus and proved against their contracts. Times are nanoseconds of a monotonic
clock, passed in by the caller.

- `src/` holds the library.
  - Panels and their handle: `lcd_link`, `lcd_core`, `lcd_reply`, `pending`, `ring_cycle`, `stream`.
  - Coolers: `h2_aio`, `h2_pwm`, `h2_ring`, `control`.
  - Receivers: `wireless`.
  - LCD groups that lost panels: `group_recovery`, `group_watch`, `lcd_groups`, `lcd_recovery`.
  - Media and panels: `media`, `refresh`, `selection`, `service`, `registry`.
  - Startup images: `startup_image`, `upload`, `quarantine`, `journal`.
  - Foundations: `bytes`, `table`, `text`, `topology`.
- `app/` does what the library decides: clocks, files, USB handles, threads.
- `tests/` runs the library on concrete values.

A state machine that alternates with I/O is a function from a step and its outcome to the next step;
`app/` carries the steps out. What is believed without proof are the calls into `serde_json` (the
journal), `image` (blank pictures) and `String::from_utf8_lossy` (firmware names), each behind a
function marked `external_body`.
