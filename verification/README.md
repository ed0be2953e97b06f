# save_decoder

Decodes Oblivion Remastered save files into plain text: it takes the
`AltarSaveData` byte array out of the GVAS wrapper, walks the chain of
Oodle-compressed chunks inside it, and lists the Unreal tagged properties of
the decoded data, next to a hex dump of it.

- `src/` is the library, verified with Verus:
  - `decoder.rs`: the chunk search and chunk chain (the decompressor is handed
    in as a closure), and picking the save data out of the wrapper (the
    wrapper's parser is handed in as a closure too);
  - `interpreter.rs`: the walk over the tagged-property lists;
  - `hexdump.rs`: the `offset | hex | ascii` dump;
  - `summary.rs`: the header, preamble and summary texts of a run;
  - `bytes.rs`, `text.rs`: little-endian reads and number formatting;
  - `gvas_read.rs`: the string and header reads of the `gvas` crate, with
    their trusted contracts.
- `app/` is the desktop program (eframe and rfd): file picking, file I/O, the
  Oodle decompressor from `oozextract` and the GVAS wrapper parser from `gvas`
  (both run under `catch_unwind`, since both panic on some malformed input),
  and the rendering of floating-point values.
- `tests/` holds the tests of the library.
