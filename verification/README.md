# weldr

A reader for the LDraw file format (the text format of the LDraw library of
LEGO parts), verified with Verus.

- `src/` is the library. Each parser of the grammar is an executable function
  whose contract says that its result is a mathematical function of its input
  (the `spec_` function of the same name). `src/laws.rs` states and proves what
  holds of the parse of a whole file: one command per line, blank lines have no
  effect, a line of invalid line type is ignored, reading ends at a line that
  cannot be read, and only a number cut short makes a file fail.
- `src/tokens.rs` and `src/alike.rs` state what holds within a line: any run
  of spaces and tabs separates tokens, and the keywords of a GLITTER material
  are read in any case. Two inputs that differ only there read alike, for
  type 2 lines and GLITTER materials, whatever else they hold.
- `src/line_ends.rs` shows that no command reads past the end of its line
  (but for a !COLOUR name that runs to it), and so that a file reads alike
  with <LF> and with <CR><LF> line ends.
- Numbers are kept as the text they were read from: which text is a number is
  decided by nom's `float`, called through a trusted wrapper whose contract
  states the grammar it recognizes. UTF-8 decoding, trimming and Base64
  decoding are likewise calls into the standard library and the `base64`
  crate, each behind a trusted item whose contract is written next to it.
- `app/` turns the numbers into `f32` values and `glam` vectors.
- `tests/` runs the parsers on concrete lines and files.
