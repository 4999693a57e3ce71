# cargo-overlay-registry

A cargo registry made of layers. Crates are published to a local registry on top and
looked up through all layers; what no local registry has comes from a remote one, such as
crates.io.

- `src/` is the library, verified with Verus. It decides and computes: what metadata may be
  published, how publish requests and index files are read and written, how layers are
  merged, which requests are answered and how. Its contracts are stated over sequences of
  characters and bytes. Proof functions named `law_..` state what holds of several functions
  together.
- `src/outside.rs` lists what is taken on trust from other crates: SHA-256 digests, the host
  of a URL, the sections of PEM files, Unicode lower case.
- `app/` is the server around it: files, HTTP, TLS, JSON and the command line.
- `tests/` runs the library on concrete values.

The server does not make certificates. TLS takes `--tls-cert` and `--tls-key`; tunnels that
clients ask the proxy for are refused.
