# imgen

Command-line tool that generates images through the Replicate API, built around
a library whose decisions are verified with Verus.

- `src/` — the verified library:
  - `ratio` — exact choice of the allowed `aspect_ratio` closest to a size;
  - `schema` — what a model's OpenAPI schema allows (`aspect_ratio` values,
    also through `$ref` and `allOf`; `output_format`);
  - `input` — the prediction `input` object;
  - `prompt_file`, `jobs` — reading prompt files, applying `defaults`, the
    precedence job > defaults > command line, the models to resolve;
  - `prediction` — image URL extraction, polling decisions, deadline, retries
    on HTTP 429;
  - `output` — where a download goes and whether it is converted to WebP;
  - `json`, `numeral`, `natural`, `text` — JSON values (read from text, and
    searched with JSON pointers, by serde_json), the numerals of HTTP headers
    and of aspect-ratio sides (`16`, `2.39`, `1e1`, `inf`), natural numbers of
    any size for exact comparison, character helpers.
- `app/` — the binary: arguments, HTTP and its responses, files, WebP encoding.
- `tests/` — tests of the library on concrete values.
