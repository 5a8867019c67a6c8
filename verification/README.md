# claurst

A verified library for an LLM client's secure plumbing, written in Verus:

- `password_store`: `{{pass:domain:path[:mode[:field]]}}` placeholders, their
  parsing, and their replacement for one destination domain only.
- `password_utils`: the host of a URL, and filling a payload for it.
- `password_store_ripasso`: the directory walk and entry list of a
  pass-compatible store, and the reading of passwords and fields out of
  decrypted secrets.
- `e2ee`: the ML-KEM-768 / HKDF-SHA256 / ChaCha20-Poly1305 / gzip request,
  response and stream protocol of TEE model instances.
- `chat_stream`: OpenAI-style streamed chunks turned into stream events, and
  whole responses collected from them.
- `chunk_json`: a streamed chunk read out of its JSON text.
- `e2ee_stream`: the encrypted event stream: bytes into server-sent-event
  lines, and each line's step (stream key, decrypted chunks, server errors,
  the end of the stream), with laws over whole streams.
- `chutes`: the Chutes provider's model and instance resolution, headers,
  retry rule, listings and health.
- `playwright`: the browser tool's input checking and results.
- `text`: character helpers shared by the parsers.

`src/` is verified; `app/` holds the HTTP client and the reading of the
response body, the directory reads and `gpg` runs, and the browser driving,
which call into it.
