# scx

Tools for the script and message files of MemoOff9 (Steam): a disassembler
for SC3 scripts (`.scx`) and MES message files (`.msb`), an extractor for
MPK archives, and a renderer that draws each message with the game's font.

The library in `src/` is written in Verus: every function states what it
returns in its contract, and Verus proves the code meets it.

- `format`, `text`: byte readers, hexadecimal and decimal text.
- `expr`: the expression byte code of scripts.
- `opcode`: the instruction tables of the script virtual machine.
- `scx`: SC3 headers, the decoding loop, and the listing of reachable code.
- `msb`: MES headers, message tokens, and their listing.
- `il`: instructions and documents, and their text form.
- `render`, `layout`: name and body of a message, glyph metrics, line
  layout, alignment and the size of the rendered picture.
- `mpk`: MPK headers, entry records and safe output paths.
- `select`: which files a run takes and the names of what it writes.

`app/` holds the command-line tools (`disasm`, `mpk`, `render`): argument
handling, reading and writing files, JSON, and the pixel work (distance
field to alpha, blending), which uses floating point.
