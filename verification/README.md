# moq_pure

The verified core of a pure-Rust Media over QUIC stack, written in Verus.

| Module | What it holds |
|--------|---------------|
| `clock` | UTC instants, the proleptic Gregorian calendar, and a clock that is published and followed over a track |
| `tls` | certificates, keys and roots out of PEM files, their fingerprints, and loading them one file after another |
| `web` | the HTTPS helper for browsers: its routes, and the log files that it serves out of a directory |
| `quic` | header and packet protection with AES-128, retry tags, reset signatures and tokens |

`src/` is the library. Every function in it has a contract that Verus proves; the functions whose
names start with `law_` state what holds of several functions together. Calls into other crates
stand behind small wrappers whose doc comments say what is taken on trust.

`app/` is ordinary Rust around the library: it reads files, listens, sleeps, and implements the
traits of rustls and quinn. It also uses `moq-transport` and the `rustls-rustcrypto` provider,
which are built beside this crate. `tests/` runs the library.
