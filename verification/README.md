# schemalint

Static analysis of JSON Schemas for the structured-output support of LLM
providers, written in Verus.

- `src/` is the verified library: JSON and TOML models, profile loading,
  schema normalization into an IR arena, `$ref` resolution, cycle
  marking, the output formats (human, JSON, SARIF, GitHub Actions, JUnit),
  check reports and coverage, discovery of inputs, the JSON-RPC request
  handling, the conformance truth engine and its HTTP request handling, the
  rule reference pages.
- `app/` is the program around it: command-line parsing, files, processes,
  sockets and standard streams.
- `tests/` exercises the library on concrete inputs.
