# Long Shot

A scrolling screenshot tool for Wayland compositors that support
`wlr-screencopy-unstable-v1` and `wlr-layer-shell-unstable-v1`.  Select a region,
scroll what it shows, and save or copy the stitched image.

    long-shot-rs [-o FILE] [-d DIR] [-e COMMAND]

* `-o FILE` names the file to save; without it the name is
  `longshot_YYYYMMDD_HHMMSS.png`.
* `-d DIR` names the directory for such files; without it the directory for
  pictures is used, or else the home directory, or else the current one.
* `-e COMMAND` runs a command after saving; `{}` stands for the path of the file.

## Layout

* `src/` holds the logic, verified with Verus: parsing, the selection, the
  decoding and debouncing of wheel events, the capture protocol, stitching, the
  pace of the captures, everything that is drawn, and the choice of file names.
* `app/` holds the program around it: threads, the Wayland connection, devices,
  files, the clipboard, OpenCV, and the rasterising of fonts.
* `tests/` runs the library on concrete values.

## What is trusted

The library relies on four statements about code outside it, each next to the
call it describes: that `String::push` appends a character, which events
`evdev` counts as those of a relative axis, which buffers
`image::RgbaImage::from_raw` accepts, and how `chrono` writes a moment.

## Numbers

Ratios and scores of the stitching are integers that count millionths, pointer
coordinates count 256ths of a pixel, as the protocol carries them, and times
count nanoseconds.  The position and the score of a template come from OpenCV,
glyphs from a font rasteriser, and the spans that a pixel of the preview averages
from the program; the library is verified for every value of them.
