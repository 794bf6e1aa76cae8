//! A message relay: it frames a user message as the JSON request document a
//! remote chat service expects, and interprets the service's HTTP outcome —
//! transport failure, status code, and reply document — into either the
//! parsed reply or a classified, human-readable error.

pub mod json;
pub mod relay;
pub mod text;
