# ips — image prompt search

`ips` searches the prompts that AI image generators (A1111/Forge, ComfyUI, NovelAI, InvokeAI)
embed in PNG, JPEG and WebP metadata, and prints the matches on the console, as JSON or as CSV.

The library under `src/` is verified with Verus:

- `text` — strings as character sequences: trimming, substring search, UTF-8 byte offsets,
  decimal text, float syntax, byte ranges.
- `json` — a JSON tree held as plain values, objects kept in key order.
- `types` — records, match results and the search configuration, each with its model.
- `extract` — PNG text chunks (with the JSON of `prompt` and `Comment` values), JPEG
  segments, WebP chunks, EXIF `UserComment`, XMP descriptions, A1111 parameter text and
  ComfyUI workflows (normalised from the API, wrapped and UI forms; prompts, model, LoRAs and
  sampler conditioning); `extract_prompt` picks the reader by extension and orders a file's
  records by metadata key.
- `matcher` — exact (case-insensitive), fuzzy (skim) and regular-expression matching.
- `output` — the console window of characters around the first match, highlighting, the
  structured console entries, JSON records and CSV rows.

Each module states its laws as public proof functions next to the code they speak of.

`app/` is the command-line program: argument parsing, directory walking, file reading,
parallel search and printing. `tests/` runs the library on concrete inputs.
