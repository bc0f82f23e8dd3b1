# hayro_raster

The verified core of a PDF renderer.

- `context` turns what is drawn into the steps of a rasterization pipeline, and decides how a
  picture is rendered.
- `fine` and `tiles` draw wide tiles with a rasterizer and put them together to an image, on one
  thread or on many.
- `svg_image` and `data_uri` write images into an SVG document.
- `threads`, `page_args` and `text` read settings and arguments.
- `geometry` declares the types of `kurbo` that are carried along.

What each function does is stated in its contract and proved with Verus. `app` holds the code that
touches the environment, the thread pool, the file system and floating-point numbers.
