# camerad

Owns the webcam and publishes RGB8 frames into a shared-memory camera ring
(`/dev/shm/body_estim_camera` by default) that other processes read.

- `src/` is the library, verified with Verus:
  - `yuyv` — YUYV, YU12 (I420) and RGB24 to packed RGB8, BT.601
    limited-range fixed point, with the horizontal mirror folded in; each
    converter's result is stated exactly as a spec function of its input.
  - `ring` — the ring protocol: the 64-byte little-endian header, the slot of
    each frame (`64 + (seq % num_slots) * slot_size`), and publishing a frame
    (payload first, then `producer_seq`).
  - `v4l2` — ioctl request codes, the capability check, the order in which
    pixel formats are negotiated (RGB24, YUYV, YU12) and the other decisions
    taken on what the driver reports.
  - `cli` — usage text, camera index to device path, and the argument parser.
  - `capture` — converting a delivered frame, by pixel format, into a slot.
- `app/` is the `camerad` program: V4L2 ioctls and `mmap`, the ring file,
  signals, pacing (`--fps`) and logging.

CLI: `camerad [--camera <index|path>] [--path <ring>] [--mirror] [--fps <fps>]
[--preview] [-v|--log]`.
