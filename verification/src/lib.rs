//! A small interactive-shell library whose centre is the prompt template
//! compiler: a single-pass, character-level state machine that turns a
//! template string with embedded colour and font directives into literal
//! characters interleaved with terminal control sequences.

pub mod builtins;
pub mod prompt;
pub mod prompt_laws;
