# class_diagram

Builds Mermaid `classDiagram` text from Rust source files, verified with Verus.

- `src/` is the verified library:
  - `syntax`: the plain description of a parsed file that the logic reads
    (items, names, visibilities, token texts).
  - `source`: parsing source text with `syn`.
  - `model`: classes, fields, methods and connections.
  - `init_classes`, `relationships`, `class_map`, `diagram`: the classes a file
    declares, the relationships between them, and the whole pipeline over
    several files; `relationship_laws` proves what holds across the edits
    and across repeated calls.
  - `mermaid`: the text of each model element and of a whole diagram.
  - `discover_types`, `process_file`: declared type names, and a direct text
    form of a file.
  - `cli`, `settings`: command-line options and settings.
- `app/` is the program: it walks a directory, reads and parses the files,
  turns each `syn` tree into the library's description, writes `diagram.mmd`
  and runs `mmdc`; it also starts and stops language servers.
- `tests/` runs the library on hand-built descriptions of small files.
