# vello

`vello` manages a curated catalog of GGUF models, downloads them from Hugging
Face, and drives a local llama.cpp + Open WebUI stack in Docker. It picks the
quantization that fits the machine, ranks models for a use case, generates the
`.env` that `docker compose` reads, and checks the host.

Everything that decides or computes is a library verified with
[Verus](https://github.com/verus-lang/verus); the program around it reads and
writes files and runs other programs.

## Layout

- `src/` — the library.
  - `chars`, `text` — strings: specifications, and the functions that meet them.
  - `binary32` — IEEE 754 single precision in integers, correctly rounded.
  - `schema`, `catalog` — models, hardware profiles, catalogs and their merging.
  - `fit`, `recommend` — memory needs, tiers, the choice of a quantization, and
    the ranking of models.
  - `system`, `profile`, `paths`, `resolver` — configuration, and the merge of
    all of it into `.env`.
  - `docker`, `diagnostics` — the commands that are run, and what is made of their
    answers.
  - `checks`, `doctor` — the host checks, the report and the plan that fixes it.
  - `style`, `commands` — what each command decides and prints.
- `app/` — the `vello` program: arguments, files, processes, prompts, and the
  parsing and printing of floating-point numbers.
- `tests/` — tests of the library.

Contracts speak of views: `Seq<char>` for strings, `Num` for numbers, and a
`…View` for each record. Laws that relate several functions are public proof
functions whose names begin with `law_`.
