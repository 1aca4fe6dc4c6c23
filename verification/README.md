# palagent_ai

A Palworld save-file analyser: it reads the level, player and world-option saves,
reports time, settings, players, pals, bases, guilds and chest contents, plans
breeding, cleans seed items out of containers, and serves the reports to AI
assistants over MCP or to other machines over a small HTTP protocol.

## Layout

- `src/` — the library, verified with Verus. Every public function states what it
  computes over mathematical models (`Seq`, `Map`, `int`, views of the data types):
  - `wire`, `scanner`, `measure`, `level`, `camps`, `pals`, `players`, `progress`,
    `settings`, `full`, `world`, `guid`: reading GVAS property data (strings,
    integers, floats as bit patterns, maps, arrays, character records, containers,
    base camps, guilds) with exact results, and `None` where the bytes are malformed;
  - `gvas`: the `.sav` container around zlib (through `flate2`) and Oodle payloads;
  - `db`, `breeding`, `report`, `analysis`: the metadata tables, breeding rules and
    plans, and the report contents;
  - `i18n`, `text`, `output`: interface texts, text helpers and output capture;
  - `server`, `remote`, `mcp`, `console`, `setup`, `save_editor`: the host/client
    protocol, the MCP decisions, the interactive console's commands, the assistant
    configuration texts and the save editor's slot encoding.
- `tests/` — tests of the library on concrete values.
- `app/` — the program around the library: argument handling, files, SQLite, TCP,
  standard input/output, the Oodle library and the floating-point presentation.
