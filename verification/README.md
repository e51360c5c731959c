# treader

A viewer for PDF and EPUB documents in terminals that speak the Kitty graphics
protocol.

The library in `src/` holds what the viewer decides and computes, verified with
Verus:

- `render_loop`, `render_rest`, `renderer`, `document`: what the render thread
  does next and why it comes to rest, which pages it renders and searches and in
  which order, what it tells of a document.
- `image_pipeline`, `convert`, `raster`, `intervals`, `regions`, `interleave`:
  which rendered page is converted next, and how its pixels are decoded,
  highlighted and cropped.
- `app`, `residency`: pages, scrolling, zoom, search jumps, and which images stay
  in memory.
- `terminal`, `screen`, `text`: the size of the terminal and the text drawn on
  it.
- `state`: what is remembered of a file, and under which name.
- `real32`, `arith`: single-precision numbers by their bit patterns, and small
  arithmetic.

Public proof functions named `law_...` state what holds across these functions.

`app/` holds what surrounds the library: MuPDF, the terminal, files, channels
and floating-point figures.
