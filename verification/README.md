# video_cut

The core of VideoCut, a lossless video cutter for Windows, as a library
whose behaviour is stated in contracts and proved with Verus.

`src/` holds the verified library:

- `mp4` — reading track ids and names out of an MP4's `moov` box.
- `probe`, `listing`, `hwaccel` — interpreting what `ffprobe` and `ffmpeg`
  report: streams, audio tracks, codec and hardware-acceleration listings,
  and the encoder/decoder chains chosen from them.
- `keyframes`, `bisect`, `export`, `smart_cut`, `fallback`, `args` — cut
  planning around keyframes and the FFmpeg argument lists of every export
  step.
- `progress` — the `time=` fields of FFmpeg's error output that drive the
  progress bar, and the last hundred lines kept for a failed run's message.
- `waveform`, `points`, `cachekey`, `registry` — waveform parameters, the
  cache file layout and its name, batching of points, and the table of
  running waveform jobs.
- `config`, `session`, `error`, `models`, `text`, `floatbits` — settings and
  session rules (including writing one setting into the settings file), errors, shared data, text helpers and `f64` comparisons on
  bit patterns.

`app/` is the Tauri application around it: commands, process and file I/O,
and the floating-point arithmetic (durations, progress, sample statistics),
which the library leaves to its caller. `tests/` exercises the library on
concrete values.
