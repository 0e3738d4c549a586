//! A resource-bounded, non-blocking parser for a line-oriented command
//! protocol of the form `COMMAND KEY=VALUE KEY2=VALUE2 ...\n`, and a bounded
//! queue for the text that goes back.
//!
//! The crate never blocks and keeps all its data in place, in buffers of
//! fixed size. Talking to the serial device is left to the caller: every
//! function here takes what the device answered, or says what to ask of it
//! next. One polling cycle goes like this:
//!
//! 1. Read the byte source and hand each outcome to
//!    [`LightCliInput::fill`], as long as it answers [`Fill::ReadAgain`].
//! 2. Call [`LightCliInput::parse_data`] as long as it gives an event. Bytes
//!    may arrive in chunks of any size: a command that spans several cycles
//!    comes out as if it had arrived at once.
//! 3. Queue what is to be sent with [`LightCliOutput::write_str`], and call
//!    [`LightCliOutput::flush`] with the answers of the byte sink until it
//!    says [`Flush::Done`].
//!
//! Every function is verified against a model of what it does: the queue as
//! a sequence of bytes, text as a sequence of characters, the parser as a
//! function from its state to the next event. The laws that follow from the
//! model are proved in [`chunks`], [`lines`], [`tokenizer`] and [`output`].

pub mod chunks;
pub mod error;
pub mod input;
pub mod lexer;
pub mod lines;
pub mod output;
pub mod ring;
pub mod scalar;
pub mod text;
pub mod tokenizer;

pub use error::Blocked;
pub use error::Error;
pub use input::LightCliInput;
pub use lexer::CallbackCommand;
pub use lexer::Lexer;
pub use output::Flush;
pub use output::LightCliOutput;
pub use ring::RingBuffer;
pub use text::TokenText;
pub use tokenizer::Fill;
pub use tokenizer::FillError;
pub use tokenizer::Token;
pub use tokenizer::Tokenizer;
