# fridge

Attach to a process, load a script into it, get its messages as normalized
events, and record them to replay later.

The library under `src/` decides and computes, and its behaviour is stated in
contracts that Verus proves:

- `capture`: the builder, and the course of a session as a state machine that
  names what to do next and takes what came of it.
- `target`, `discover`: what to attach to, and finding it by name.
- `event`: from raw messages to `Event`.
- `record`: the capture format. `format` states it and what holds of it,
  `writer` and `reader` write and read it, `codec` and `wire` lay out events,
  `events` records them, `listing` finds capture files.

The program under `app/` opens devices, runs threads and reads and writes files
around the library:

```text
fridge attach --target Weixin.exe --script hook.js --record cap.bin
fridge replay cap.bin
```

A capture is `MAGIC "FRGE" | u32 LE version | [u8; 4] tag`, followed by entries
of a `u32` LE length and that many bytes. A reader with another tag gets an
error. A truncated trailing entry is dropped, and an entry above 16 MiB is
refused.
