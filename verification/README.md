# goosy

The decisions behind scrolling lyric videos and printable lyric sheets,
written in Verus and proved against their contracts.

- `src/`: the verified library. It reads LRC, YRC and TTML lyrics into timed
  lines (`lrc`, `yrc`, `ttml`, `format`, with `xml` driving the `quick-xml`
  reader through trusted contracts), decides which line is active and
  focused at a moment and when an instrumental interlude runs (`layout`),
  where sung words sit in a line (`highlight`), what the frame loop, its live
  previews and a printed sheet show (`scene`, `preview`, `printout`), what the
  lyric library screen offers (`library`), and how FFmpeg, the drawing
  backends and JSON render requests are handled (`media`, `backend`,
  `request`). Laws that span functions are public proof functions named
  `law_*` next to the functions they speak of.
- `tests/`: the tests, run against the compiled library.
- `app/`: host-side glue that Verus does not see: files and processes
  (FFprobe, FFmpeg, worker probes), the floating-point clock values of TTML
  and the duration that FFprobe prints, the spring motion of the lyric column,
  preview files and the C interface.
