# carta

The decision engine of Carta, a desktop app that gets downloaded videos
ready to play off a USB stick or a NAS on a TV, written in Verus and
verified.

- `src/text.rs`: character-level helpers (blanks, trimming, decimal
  rendering, joining, replacing) stated over `Seq<char>`.
- `src/styling.rs`: removal of the styling tags (all but `<i>`, `<b>`, `<u>`) and ASS override blocks that
  ffmpeg leaves in subtitles converted to SRT, with its laws.
- `src/naming.rs`: the names of the MP4 and `.srt` files written, and the
  sanitising of a typed name.
- `src/probe.rs`: what ffprobe reports, with every missing field given its
  default.
- `src/plan.rs`: the per-track decisions (copy, convert, extract, drop) and
  their laws.
- `src/ffmpeg.rs`: the ffmpeg argument lists and the reading of what a
  running ffmpeg reports.
- `app/`: the Tauri application around it: sidecars, files, events, and the
  floating-point sizes and time estimates.
