pub mod strings;
pub mod numerics;
pub mod bignum;
pub mod token;
pub mod lexer_spec;
pub mod tokenizer;
pub mod peeking_take_while;
pub mod tokens;
pub mod expression;
pub mod order;
pub mod mapping;
pub mod equality;
pub mod parser;
pub mod printer;
pub mod effect;
pub mod semantics;
pub mod builtins;
pub mod evaluator;
pub mod base;
pub mod modules;
pub mod extract;
pub mod repl;
pub mod reader;
pub mod session;
pub mod sql;
pub mod server;
pub mod http;
pub mod html;
