# image_processor

Applies a plugin (blur or mirror) to a PNG image.

- `src/` is the verified library:
  - `frame` checks the dimensions of an RGBA frame and gives its size in bytes;
  - `pixels` holds the pixel-index arithmetic shared by the plugins;
  - `mirror` flips a frame left to right and top to bottom;
  - `blur` is the box blur, one pass at a time;
  - `params` decides which plugin parameters are used after reading them;
  - `error` is the processor's error type and its messages;
  - `plugin` names plugin libraries, picks the plugin directory and the log level;
  - `pipeline` decides, stage by stage, how processing an image goes on or ends.
- `app/` is the program: command line, logging, files, the image codec,
  loading the plugin library, and the C entry points of the two plugins.
- `tests/` runs the library on concrete frames.
