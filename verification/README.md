# patterns

Building blocks for applications that embed texts, extract structured data from them, and ask typed
questions about them, written and proved in Verus.

- `src/` is the library. It decides and computes: how a document is cut into chunks, whether a
  fetched model artifact may be used, what a request says, what to make of a response, when to try
  again, what a derive generates. Every function has a contract over mathematical models of its
  data; the `laws` modules state what holds of several functions together.
- `app/` is ordinary Rust around it: HTTP, subprocesses, model inference, serialization and tokens.
- `tests/` runs the library on concrete values, with the outside crates linked.

## What is taken on trust

The library calls a few outside crates. Each call stands in a small function of its own whose
contract is believed, not proved; its documentation says what is claimed.

| Crate         | Where             | For                                            |
|---------------|-------------------|------------------------------------------------|
| `serde_json`  | `src/json.rs`     | parsing, reading and writing JSON values       |
| `sha2`        | `src/embed/hub.rs`| the digest that an artifact is verified by     |
| `tokenizers`  | `src/tokens.rs`   | tokens, their byte offsets, and the settings of a tokenizer |
| `lingua`      | `src/language.rs` | the language of a text, and how sure that is   |
| `shell-words` | `src/llm_cli.rs`  | the words of a command line                    |
| `std`         | `src/duration.rs`, `src/llm_cli.rs` | lengths of time; text of bytes |

## Conventions

Numbers of vectors are carried by their bits (`float::F32`): the library compares them, and never
computes with them. Errors are messages for people (`error::Error`), with their causes written out.
