# video_downloader

The logic of a desktop video downloader built on `yt-dlp` and `ffmpeg`,
written in Verus: every function in `src/` carries a contract that Verus
proves. One specification is assumed rather than proved: that std's
`String::push` appends its character (`src/text.rs`).

## Layout

- `src/text.rs` — character-level string operations (trimming, case,
  searching, splitting, decimal numbers) with their specifications.
- `src/tools.rs` — the managed tools: names, saved paths, search order
  (Unix and Windows names), search directories compared as paths, version
  strings, version comparison and update status.
- `src/proxy.rs` — proxy modes, manual proxy addresses, the macOS
  `scutil --proxy` output and the `--proxy` arguments for yt-dlp.
- `src/progress.rs` — yt-dlp progress lines: ANSI codes, fields, stream
  kind and download phase.
- `src/formats.rs` — format labels, resolution scores and the list of
  format choices offered for a video.
- `src/ffmpeg.rs` — FFmpeg presets, argument lists, output file names,
  paths and shell quoting.
- `src/sites.rs` — addresses, titles, sites, cache directory names, and
  the expansion of a playlist into download queue items.
- `src/media.rs` — the resolution check of a downloaded file.
- `src/history.rs` — the FFmpeg command history (newest first, no repeated
  command, at most 500 drafts).
- `src/downloads.rs` — yt-dlp arguments, output lines, waiting for a
  command, download outcomes and history entries.
- `src/laws.rs` — properties across functions: round trips, the order on
  versions, the history and format list invariants, and that a command line
  is read back by a shell as its arguments.
- `tests/` — tests on concrete values.
- `app/` — the Tauri application around the library: commands, files,
  processes, and the floating-point progress and duration handling.
