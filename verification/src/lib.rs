//! A small systems language: its lexer and parser, its effect and move checkers, an
//! interpreter, a compiler to LLVM IR, a checker for contracts of functions, and the
//! rules of the services around them.
//!
//! - Reading programs: [`token`], [`grammar`], [`parser`], [`ast`], [`tree`],
//!   [`source`], [`pipeline`]; [`lexing`], [`syntax`], [`borrows`], [`type_names`] and
//!   [`type_reading`] hold what is true of sources, trees and names, [`printing`],
//!   [`spelling`] and [`phrases`] say that what is written is read back, [`declarations`]
//!   what a name stands for, and [`shown`] writes trees into messages.
//! - Checking programs: [`effects`], [`typing`], [`ownership`]; [`moves`], [`precision`],
//!   [`joining`] and [`copies`] hold what is true of moves, and [`effect_sources`] where
//!   effects come from.
//! - Running programs: [`machine`] says what a run does, [`interpreter`] does it, and
//!   [`scoping`], [`bindings`], [`effect_bounds`] and [`handle_effects`] hold what is
//!   true of every run. [`evaluation`] says what each construct is worth, and [`algebra`]
//!   what operators compute. What needs the outside world, or floating point, is asked for
//!   by a [`request`].
//! - Compiling programs: [`support`], [`ir`], [`numeric`], [`geometry`], [`layout`],
//!   [`emit`], [`codegen`], [`llvm`]; [`guards`], [`waivers`] and [`layouts`] hold what is
//!   true of the code. [`native`] gives its instructions a meaning, and [`flow`],
//!   [`compiled`] and [`measures`] say by it what the code does.
//! - Contracts: [`symbolic`] follows a function on terms, [`terms`] puts claims to a
//!   solver, [`soundness`] relates walks to runs, [`contract_check`] draws the
//!   conclusion, and [`agreement`] carries it over to the interpreter.
//! - Services: [`json`], [`serve`], [`dbconn`], [`observability`], [`wire`],
//!   [`handles`], [`cli`]; [`replies`] and [`surroundings`] hold what is true of what they
//!   say and are told.

pub mod text;
pub mod token;
pub mod lexing;
pub mod tree;
pub mod ast;
pub mod grammar;
pub mod syntax;
pub mod borrows;
pub mod printing;
pub mod spelling;
pub mod phrases;
pub mod shown;
pub mod parser;
pub mod source;
pub mod scopes;
pub mod builtins;
pub mod registry;
pub mod effects;
pub mod typing;
pub mod ownership;
pub mod moves;
pub mod precision;
pub mod joining;
pub mod copies;
pub mod pipeline;
pub mod value;
pub mod request;
pub mod arith;
pub mod builtin_eval;
pub mod check;
pub mod machine;
pub mod interpreter;
pub mod scoping;
pub mod evaluation;
pub mod declarations;
pub mod effect_bounds;
pub mod bindings;
pub mod handle_effects;
pub mod effect_sources;
pub mod ir;
pub mod geometry;
pub mod algebra;
pub mod flow;
pub mod compiled;
pub mod measures;
pub mod native;
pub mod numeric;
pub mod support;
pub mod layout;
pub mod emit;
pub mod codegen;
pub mod llvm;
pub mod guards;
pub mod type_names;
pub mod type_reading;
pub mod waivers;
pub mod layouts;
pub mod idents;
pub mod terms;
pub mod symbolic;
pub mod soundness;
pub mod contract_check;
pub mod agreement;
pub mod json;
pub mod serve;
pub mod replies;
pub mod surroundings;
pub mod dbconn;
pub mod observability;
pub mod wire;
pub mod handles;
pub mod cli;
