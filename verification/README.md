# lievisual

A declarative 2D scene graph whose logic is verified with [Verus](https://github.com/verus-lang/verus).

A `Scene` says *what* to draw: primitives, layers, transforms, clips, opacity, rich text. Backends
say *how*: an SVG string, or a bitmap. The library holds everything that decides or computes, with
a contract on each function; the parts that need fonts, the clock, trigonometry or a rasterizer
stand in `app/` and hand plain values over, or functions that give them.

## Layout

```
src/
  scalar.rs, arith.rs,      binary64 numbers as bit patterns: order, exact rounding of sums,
  rounding.rs, single.rs,   products and quotients, rounding to integers and to binary32,
  laws.rs, accuracy.rs      decimal output, and the laws of that arithmetic
  digits.rs, chars.rs       powers, decimal and hexadecimal digits, character lists
  geometry.rs               Point / Vec2 / Rect / Color / Transform
  composition.rs            how far composed transforms are from their parts in turn
  path.rs, path2d.rs        paths, and a path builder in the manner of a canvas
  style.rs, scene.rs        fills, strokes, elements, nodes, layers, scenes
  copy.rs                   copies of scenes
  builder.rs                Ctx: nodes in the manner of a drawing context
  text/                     text styles, font families, shaping input, extraction of layouts
  fit.rs                    content boxes, and fitting a canvas to its content
  render/                   drawing order, SVG markup, bitmaps, the state of a raster backend
  sketch/                   the hand-drawn look: generator, outlines, fills, the pass and its laws
  pixmap.rs                 RGBA8 bitmaps and their PNG form
tests/                      tests of the library from outside
app/                        fonts and text shaping, glyph outlines, the rasterizer
```

## Numbers

Coordinates are `Scalar`s: the bit patterns of IEEE 754 binary64 numbers. Sums, products and
quotients round to nearest, ties to even; contracts state each result exactly, so the markup that
a scene gives is fixed down to the last digit. Sines, cosines, tangents, square roots and lengths
of curves come in as arguments.

## What is believed

Four outside functions are believed without proof: `String::push`, the encoder and the decoder
of the `png` crate, and the parser of CSS font family lists of the `parley` crate. Their contracts
stand beside them in `src/digits.rs`, `src/pixmap.rs` and `src/text/families.rs`.
