//! Errors of the language front end and evaluator.
use vstd::prelude::*;

verus! {

/// What is wrong with a piece of source text.
#[derive(Debug, Clone, Copy, PartialEq, Eq, Structural)]
pub enum SyntaxIssue {
    /// A string literal without its closing quote, or ending in a lone backslash.
    UnterminatedString,
    /// Parentheses that do not pair up.
    UnbalancedParens,
    /// An `int:` literal whose payload is not a 64-bit integer.
    BadInteger,
    /// A `float:` literal; this core has no floating-point values.
    FloatUnsupported,
    /// A name that is empty or holds characters outside letters, digits, `_` and `.`.
    BadName,
    /// An empty argument between commas.
    EmptyArgument,
    /// A `require` without a quoted module name.
    BadRequire,
    /// A `var(name) = value` line without its parts.
    BadAssignment,
    /// A condition without one of `>`, `<`, `==`, `!=`.
    BadCondition,
    /// A block header (`if(...) {`, `func(...) = {`) that is malformed.
    BadHeader,
    /// A block that is never closed.
    UnclosedBlock,
    /// A closing brace with no open block.
    StrayBrace,
    /// `else` where no `if` block has just closed, or while it is still open.
    MisplacedElse,
}

/// Why a value could not be used where it stands.
#[derive(Debug, Clone, Copy, PartialEq, Eq, Structural)]
pub enum TypeIssue {
    /// `>` or `<` applied to something other than two integers.
    NonNumericOrdering,
    /// A handle read through a reference; handles cannot be copied.
    HandleCopy,
    /// A user function called with the wrong number of arguments.
    Arity,
}

/// An error raised while lexing, parsing or evaluating a program.
#[derive(Debug, PartialEq, Eq)]
pub enum LangError {
    Lex { line: usize, issue: SyntaxIssue },
    Parse { line: usize, issue: SyntaxIssue },
    UndefinedVariable(String),
    UndefinedFunction(String),
    Type(TypeIssue),
    ModuleNotFound(String),
    NativeCall(String),
    /// Blocks, calls and module loads nested deeper than the evaluator allows.
    TooDeep,
}

/// The model of an error.
pub enum Fault {
    Lex(usize, SyntaxIssue),
    Parse(usize, SyntaxIssue),
    UndefinedVariable(Seq<char>),
    UndefinedFunction(Seq<char>),
    Type(TypeIssue),
    ModuleNotFound(Seq<char>),
    NativeCall(Seq<char>),
    TooDeep,
}

impl View for LangError {
    type V = Fault;

    open spec fn view(&self) -> Fault {
        match self {
            LangError::Lex { line, issue } => Fault::Lex(*line, *issue),
            LangError::Parse { line, issue } => Fault::Parse(*line, *issue),
            LangError::UndefinedVariable(n) => Fault::UndefinedVariable(n@),
            LangError::UndefinedFunction(n) => Fault::UndefinedFunction(n@),
            LangError::Type(t) => Fault::Type(*t),
            LangError::ModuleNotFound(n) => Fault::ModuleNotFound(n@),
            LangError::NativeCall(m) => Fault::NativeCall(m@),
            LangError::TooDeep => Fault::TooDeep,
        }
    }
}

} // verus!
