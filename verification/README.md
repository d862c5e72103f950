# cnc_remedy

CNC Remedy works on the program files of CNC machine tools (Fanuc, Mazatrol,
Sinumerik, Heidenhain) from the Windows Explorer context menu: it renames a file
after the program name written inside it, archives it into a time-stamped folder,
removes comment lines, and writes a table of the tools the program uses. A second
program, started as `cnctt`, copies that table to the clipboard.

## Layout

- `src/` — the library, verified with Verus. Each operation states its result over
  character sequences (`Seq<char>`) and plain values:
  - `chars`, `paths`, `order` — text operations, file-name parts, the order of strings
    and sorting;
  - `text`, `reader`, `tool_list` — decoding program files, finding program names,
    reading the tools of each dialect;
  - `strip`, `generate`, `rename`, `archive`, `table_tool` — what each command does to
    a file's text or name;
  - `config`, `settings`, `menu`, `commands` — the configuration, its extra
    parameters, the choices of the interactive screens and of the command line;
  - `registry`, `renamer` — the Windows registry entries of an installation, as a
    list of operations;
  - `ui` — the width of the status markers on a console line.
- `app/` — the program around the library: console, files, the registry, the
  clipboard and the configuration file.
- `tests/` — tests of the library.
