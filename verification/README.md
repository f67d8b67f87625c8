# tola

A static site generator for Typst-based blogs: it compiles every
`content/**/*.typ` with `typst` into `public/<route>/index.html`
(`content/home.typ` becomes `public/index.html`), copies `assets/` to
`public/assets/`, and can serve the result while rebuilding what changes.

- `src/` is the library, proved with Verus: paths as components (`path`),
  where posts and assets go and how `typst` is called (`utils`), how long a
  copied file is waited for (`utils::watcher`), which file events trigger a
  rebuild (`watcher`), how the preview server answers (`server`) and how log
  lines look (`log`).
- `app/` is the `tola` command around it: argument parsing, the file system,
  the `typst` process, the file watcher and the HTTP server.
- `tests/` runs the library on concrete sites.
