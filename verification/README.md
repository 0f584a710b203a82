# kbcut

Seamless text replacement for Linux: type `brb` followed by a space or
punctuation and it becomes `be right back`, in every application.

The library holds every decision of the program, and Verus proves it. The
program around it reads devices, runs tools and types.

- `src/` is the library.
  - `daemon` follows what is typed and decides when a trigger is replaced.
  - `inject` plans what the virtual keyboard does to carry out a replacement.
  - `keymap` and `keys` know which key types which character.
  - `input` tells which devices are read and what their events mean.
  - `layout` detects the xkb layout in effect and follows it.
  - `clipboard` picks the clipboard tool for what cannot be typed.
  - `config`, `document` and `replacements` hold the triggers, and read and
    write the configuration file.
  - `setup` plans the installation and diagnoses it.
  - `text` and `json` take texts apart.
- `tests/` runs the library on concrete values.
- `app/` is the `kbcut` program: devices, processes, files and the command line.

Proof functions whose names begin with `law_` state what holds of the library
as a whole.
