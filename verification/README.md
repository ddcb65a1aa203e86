# dfi18n

Translation and CJK text rendering support for Dwarf Fortress, as a library
whose logic is verified with Verus.

- `src/` is the verified library: CP437 conversion, the markup text format
  (parsing, word layout and the game's text-box sync), the registry of parsed
  markups, memory regions and byte-pattern searches, dictionaries and the
  translation cache, glyph metrics and glyph drawing, backtrace formatting,
  ELF symbol offsets, and the pieces of the translation tool that decide.
- `tests/` runs the library on concrete values.
- `app/` is the runtime around it: the global state the game's scripts talk
  to, file, font and memory access, logging and background tasks.
