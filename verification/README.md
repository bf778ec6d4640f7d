# smallerpixels

Batch conversion of photos to WebP that keeps their EXIF metadata and file dates.

`src/` is the verified library:

- `exif.rs` — the JPEG marker-segment scan that finds the EXIF payload of the first APP1
  segment.
- `webp_exif.rs` — appending an `EXIF` chunk to a WebP (RIFF) container and fixing its
  size field.
- `picture.rs` — decoding and Lanczos3 scaling through the `image` crate, and the rule that
  scales an image down to fit a bound without ever enlarging it.
- `paths.rs` — Unix path components, file names, extensions and stems, the text of a
  parent directory as written, and joining.
- `converter.rs` — conversion settings and reports, the supported-extension check, and where
  an output file goes (mirroring the source tree).
- `job.rs` — one file's conversion as a step function: each step takes the outcome of the
  previous action (file read, WebP encoding, file write) and says what to do next.
- `batch.rs` — choosing images from a directory walk, gathering the files of a batch,
  bounding parallelism and restoring input order.
- `watcher.rs` — watch-mode settings and status, which file events or sweeps start a run,
  and the clock that sets the cutoff of the next sweep (moved only by sweeps).
- `text.rs` — small string helpers.

`app/` is the Tauri desktop application around it: file-system access, WebP encoding,
threads, the file watcher, and the IPC commands.
