# move_roms

Sorts a folder of game files into one folder per platform, `<source>/roms/<platform>`.

`src/` is a library verified with Verus. It decides; it touches neither files nor the terminal.

| module | what it says |
| --- | --- |
| `text`, `text_set`, `paths` | texts, sets of texts, and paths as sequences of parts with what is written between them |
| `classifier`, `classifier_laws` | which platform a file belongs to, and how sure that is |
| `scanner` | which files of a walk are of use |
| `plan` | where a file goes, and which moves clash |
| `transfer` | what becomes of each move, and the counts |
| `rows`, `row_laws` | a plan as rows of platforms, games and files |
| `ui`, `events`, `ui_laws` | what is selected, expanded and switched off, and what keys and clicks do |
| `geometry`, `viewport` | where things stand on the screen, and which rows are in view |
| `progress`, `screen` | what the user reads |

`app/` is the program around it: the command line, walking folders, listing archives, copying and
moving files, and drawing. It reads the lists of platforms, `platform_index.json` and
`platform_rom_file_types.json`, from the folder `assets` beside the program.

`tests/` runs the library on concrete values.
