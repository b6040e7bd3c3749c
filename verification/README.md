# msxterm

A terminal for MSX computers. Lines that are typed go to the machine; lines of
BASIC are also kept, so that the program can be listed, saved, loaded and fetched
back.

`src/` is the library, verified with Verus:

- `text`, `number`: white space, trimming, splitting; numbers as text.
- `arguments`: the path and the range of lines that a command names.
- `hex`: bytes as hexadecimal text, both ways.
- `lower`: BASIC text in lower case, but for literals and remarks.
- `program`: programs as maps from line numbers to instructions.
- `terminal`: the session, `Msxterm`.
- `commands`: the terminal commands and what is done about them.
- `fetch`: the listing that is fetched from the machine.

The functions named `law_*` state what holds of the library as a whole; for
instance, that a program that was saved can be loaded.

`app/` is the program around it: the line editor, the connection and the files.
