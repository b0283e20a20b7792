//! RetroX: the RNMDL document format (lexer, parser, validator, terminal
//! renderer) and the drawing, layout and image-decoding core of RetroBrowser.
pub mod text;
pub mod ast;
pub mod lexer;
pub mod parser;
pub mod versions;
pub mod validator;
pub mod renderer;
pub mod platform;
pub mod font;
pub mod image;
pub mod gui;
pub mod document;
pub mod excerpt;
pub mod paths;
pub mod window_events;
pub mod laws;
