# Hakai (破壊)

A desktop-destruction toy: smash, burn, shoot, paint and squish your desktop with nine
tools, let termites eat it, or wash it clean again.

This crate is its core, with the game's rules stated as contracts and proved with Verus.

## Layout

- `src/` — the verified library (`hakai_core`):
  - `rng` — the SplitMix64 generator every procedural drawing is seeded from;
  - `tools` — the nine tools' order, key digits, names and cursor art keys;
  - `input` — the key bindings and where pointer focus goes when an output disappears;
  - `damage` — the damage layer's tile grid: which tiles a rectangle touches, the dirty
    set a renderer uploads from, erasing and committing;
  - `pixmap` — the `tiny_skia::Pixmap` buffers the tiles and decals are drawn into;
  - `compose` — drawing one premultiplied image over another at a pixel offset;
  - `decals` — decal variant counts and index wrapping, stamp texts, the blank check;
  - `audio`, `effects`, `sounds`, `wav` — which sound plays when, the sound bank, and
    decoding its WAV files;
  - `capture` — the brightness grid of a captured frame and BGRA → RGBA conversion;
  - `theme` — `#rrggbb` parsing, the theme's HUD colours and the fallback look;
  - `credits`, `text` — the acknowledgements page: grouping by licence, short titles,
    word wrapping and packing to a column budget.
- `tests/` — tests of the library on concrete values.
- `app/` — the headless front end and everything floating point: the tools themselves,
  particles, termites, the HUD's fades, procedural decal/sprite/icon drawing, the
  simulation that drives the tools, the sound mixer, reading the theme and the sound
  manifest.

The platform overlay (a Wayland layer surface or a Windows window, the GPU renderer, the
audio device) is not built here; front ends follow `hakai_core::input` for their keys.

## Running

```bash
hakai simulate                     # drive every tool, check the interaction rules
hakai credits <sound manifest> 60  # the acknowledgements page, 60 columns wide
hakai theme                        # the active theme's colours
hakai sounds                       # the sound bank
hakai dump target/dump             # every decal, sprite and icon as PNG
```

Fonts and sounds are read from `$HAKAI_ASSETS` (default `assets/`).
