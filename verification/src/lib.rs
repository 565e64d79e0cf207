//! A verified chat bridge: it turns one user message into the JSON body of
//! a `POST` to a backend's chat endpoint, and turns the HTTP outcome of
//! that call into either a decoded `ChatResponse` or a `ChatError` telling
//! transport, server and decode failures apart.  The HTTP call itself is
//! the caller's: the library supplies the endpoint URL, the exact request
//! body, and the verified interpretation of whatever came back.
pub mod bridge;
pub mod json_text;
pub mod laws;
