# book_tools

Tooling for building the Rust book, verified with Verus:

- `remove_hidden_lines`: drops mdBook's hidden lines (`# ...`) from the code
  blocks of a Markdown text and de-dents the scopes they wrapped;
- `mdbook_epub`: turns mdBook's HTML output into an EPUB 3 file (chapters in
  summary order, links and image sources rewritten, code highlighted, images
  bundled, SVG images rendered to PNG) and checks an EPUB file.

## Layout

- `src/` is the verified library. Each module states its functions' results
  over spec functions on sequences of characters:
  `text` (strings as `Seq<char>`), `hidden_lines`, `naming` (slugs, XML
  escaping, media types), `urls` (chapter file names, link rewriting),
  `html` (title, `<main>`, code blocks, `class` languages), `summary`,
  `epub` (the documents of the EPUB), `highlight` (`syntect`), `chapters`,
  `assets` (which files go in, and how their bytes are gathered), `svg`
  (`resvg`), `package` (the archive's entries and the validator's checks),
  `args`, `metadata` (`toml`), `ownership` (small listings of the book).
  The laws of the library are public proof functions beside the functions
  they speak of.
- `app/main.rs` does the reading, walking, zip writing and printing; the
  program name (`remove_hidden_lines` or anything else) picks the program.
- `tests/` runs the library on concrete inputs.
