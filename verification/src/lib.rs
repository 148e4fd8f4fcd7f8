//! Anthropic Messages compatibility for a gateway whose workers speak OpenAI Chat Completions.
//!
//! A request comes in as an Anthropic message request and is converted by [`request`], with the
//! help of [`content`], [`messages`] and [`tools`]. The response is passed on in the form that
//! [`form`] decides: an [`error`], one message ([`response`], [`thinking`]), or a stream of events
//! ([`streaming`], [`converter`], [`event`], [`sse`]).
//!
//! Every function but the few that call outside code is verified against a description on
//! mathematical values. What holds of the library as a whole is stated in public proof functions,
//! most of them in [`refusal`] (which errors a client gets), [`framing`] (what is written is read
//! back), [`protocol`] (the order of events), [`agreement`] (a stream shows what the whole answer
//! shows), [`appending`] (data is converted piece by piece), [`delivery`] (what a client gets of a
//! streamed response) and [`sent_back`] (the model reads its own answer). What becomes of each part
//! of a request and of a response is stated in [`asking`] and [`settings`] (what the model is
//! asked), [`answering`] (what a client is answered), [`assembling`] (what a client puts together
//! from a stream), [`wire`] (what goes over the wire), [`shapes`] (the fields of the JSON that is
//! written), [`characters`] (what is taken from texts) and [`views`] (what values stand for).
//!
//! [`json`] and [`text`] hold the values that are converted, [`walk`] describes going through a
//! list of them, and [`interop`] is the boundary to `serde_json`.

pub mod agreement;
pub mod answering;
pub mod appending;
pub mod asking;
pub mod assembling;
pub mod characters;
pub mod content;
pub mod converter;
pub mod delivery;
pub mod error;
pub mod event;
pub mod form;
pub mod framing;
pub mod interop;
pub mod json;
pub mod messages;
pub mod protocol;
pub mod refusal;
pub mod request;
pub mod response;
pub mod sent_back;
pub mod settings;
pub mod shapes;
pub mod sse;
pub mod streaming;
pub mod text;
pub mod thinking;
pub mod tools;
pub mod views;
pub mod walk;
pub mod wire;
