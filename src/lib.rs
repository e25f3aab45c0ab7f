//! Compiler for a small declarative UI-component language: a parser for the
//! component grammar, a render tree with per-component tag ids, the traversal that
//! finds dynamic text and event listeners, an HTML renderer and a class generator.

pub mod text;
pub mod ids;
pub mod value;
pub mod functions;
pub mod tree;
pub mod component;
pub mod render;
pub mod codegen;
pub mod parser;
pub mod builder;
pub mod laws;

pub use builder::{build_component, compile_component};
pub use component::Component;
pub use functions::{Function, Statement};
pub use parser::{parser, ComponentDeclaration, Construct, HTMLTag, Module, ParseError};
pub use render::{Rendered, Renderer};
pub use tree::{EventListener, EventType, Node, Tag};
pub use value::{EvalError, Expression, Operation, Value};
