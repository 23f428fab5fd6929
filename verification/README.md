# ie_r

The logic of a screen colour picker (Instant Eyedropper for Linux), written
in Verus and proved against its contracts.

- `src/capture.rs`: captured monitor images (XRGB8888), the eight
  Wayland output transforms that turn a capture upright, and RGBA → XRGB
  conversion of decoded images (`image` crate).
- `src/canvas.rs`: monitor tiles placed in compositor space with their
  scale, and sampling across them: a point beyond the active monitor is
  carried through logical coordinates to the neighbouring monitor's pixel;
  square averages of samples.
- `src/color.rs`: pixel components and the `#RRGGBB` notation.
- `src/config.rs`: the configuration's data, template selection (with
  `indexmap` for overlay templates), the display form of templates, the
  colour history, and the configuration file's location.
- `src/daemon.rs`: the main loop's decisions for each event and timer tick.
- `src/menu.rs`: the external-launcher menu: its lines and actions, and
  reading the launcher's answer.
- `src/toml_doc.rs`: the configuration file as a TOML document with its
  comments and spacing, and the merge that writes new settings into it.
- `src/toml_text.rs`: reading and printing that document with `toml_edit`,
  and saving new settings into the file's text.
- `src/text.rs`: string helpers (whitespace trimming, unsigned parsing,
  literal replacement) with their specifications.

`app/` holds the program around the library: Wayland, D-Bus, signals,
files, serde, and the rounding of floats in the saved settings.
