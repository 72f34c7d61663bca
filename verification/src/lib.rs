//! Building blocks for applications that embed texts, extract structured data from them, and ask
//! typed questions about them.
//!
//! Everything here decides or computes; nothing here talks to the world. Requests, subprocesses
//! and model inference are run by the caller, who hands over what came back.
//!
//! - [`embed`]: in-process embeddings of a pinned, verified model artifact.
//! - [`embed_api`]: embeddings over an OpenAI-compatible endpoint.
//! - [`chunk`]: cutting documents at token boundaries, shared by both.
//! - [`llm_cli`]: structured extraction via a local CLI, with one repair.
//! - [`systemone`]: typed questions about a state, and their answers.
//! - [`language`]: whether a text is English.
//! - [`retry`]: when to retry a call, and after how long.
//! - [`macros`]: what the derives accept, and what they generate.

pub mod chunk;
pub mod duration;
pub mod embed;
pub mod embed_api;
pub mod error;
pub mod float;
pub mod json;
pub mod language;
pub mod limits;
pub mod llm_cli;
pub mod macros;
pub mod num;
pub mod prefixes;
pub mod retry;
pub mod sort;
pub mod systemone;
pub mod text;
pub mod text_map;
pub mod tokens;
