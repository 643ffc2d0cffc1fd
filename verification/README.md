# ds_free_api

The configuration model and request/response rules of a proxy that serves
DeepSeek's web chat through OpenAI- and Anthropic-style APIs, verified with
Verus.

- `src/text.rs`: trimming, lower-casing, decimal rendering and joining, with
  exact specifications.
- `src/config.rs`: the settings and their defaults, account de-duplication,
  validation of a loaded configuration, the model registry, command-line
  handling, and the laws that tie them together.
- `src/client.rs`: decoding of the response envelope, header value checks,
  success status and WAF detection, and the records sent and received.
- `app/`: the I/O around the library: reading and writing `config.toml`,
  the environment, and the async HTTP client (built on `wreq`).
- `tests/`: tests of the library on concrete values.
