use vstd::prelude::*;
use crate::ast::SourceError;
use crate::ast_nodes::AstKind;
use crate::value::Builtin;

verus! {

/// How a block of statements ended: whether a `return` ran, and the value
/// it gave.
#[derive(Clone)]
pub struct ExecResult<V> {
    pub has_return: bool,
    pub value: Option<V>,
}

impl<V> ExecResult<V> {
    /// The result of a block that ran to its end without returning.
    pub open spec fn new_spec() -> Self {
        ExecResult { has_return: false, value: None }
    }

    /// A block that ran to its end without returning.
    pub fn new() -> (r: Self)
        ensures
            r == Self::new_spec(),
    {
        ExecResult { has_return: false, value: None }
    }
}

impl<V> Default for ExecResult<V> {
    fn default() -> (r: Self)
        ensures
            r == Self::new_spec(),
    {
        Self::new()
    }
}

/// Why running a program stopped; `S` is the type of the texts it carries.
#[derive(Clone, PartialEq, Eq, Debug)]
pub enum RuntimeErrorOf<S> {
    /// A name is bound in no scope.
    NameNotDefined(S),
    /// An arithmetic operand or a comparison operand is no number.
    ExpectedNumber,
    UnsupportedBinaryOperator,
    UnsupportedComparisonOperator,
    UnsupportedUnaryOperator,
    /// An integer result does not fit in 64 bits.
    IntegerOverflow,
    /// The right operand of `%` is zero.
    ZeroDivisor,
    /// An attribute other than `argv` of `sys`.
    UnsupportedAttribute(S),
    /// A subscript that is no integer.
    IndexNotInt,
    ListIndexOutOfRange,
    StringIndexOutOfRange,
    /// A string subscript below the length in bytes but past the last
    /// character.
    StringIndexNoCharacter,
    /// A subscript of a value that is neither a list nor a string.
    UnsupportedSubscript,
    NotCallable,
    /// A defined function called with the wrong number of arguments.
    ArgumentCount { name: S, expected: usize, got: usize },
    /// A function of the runtime that takes one argument got another number.
    BuiltinArgumentCount(Builtin),
    LenUnsupported,
    IntUnsupported,
    ImportExpectsString,
    UnsupportedImport(S),
    RunPathExpectsString,
    /// A source file that could not be read.
    CannotOpen(S),
    /// `run_path` on a path whose file the runtime has not been given yet
    /// (see `PyRuntime::sources`).
    SourceNotLoaded(S),
    /// A source file that does not scan or parse.
    Source(SourceError),
    /// `run_path` before the argument list was set.
    NoSysModule,
    ExpectedModule,
    ExpectedFunctionDefinition,
    UnsupportedExpression(AstKind),
    UnsupportedStatement(AstKind),
    /// A function whose defining scope has ended was called.
    ClosureScopeGone,
    /// The step budget of the run is used up.
    OutOfFuel,
}

/// Why running a program stopped.
pub type RuntimeError = RuntimeErrorOf<String>;

/// A runtime error with its texts taken by their views.
pub type ErrorView = RuntimeErrorOf<Seq<char>>;

/// The view of a runtime error.
pub open spec fn error_view(e: RuntimeError) -> ErrorView {
    match e {
        RuntimeErrorOf::NameNotDefined(t) => RuntimeErrorOf::NameNotDefined(t@),
        RuntimeErrorOf::ExpectedNumber => RuntimeErrorOf::ExpectedNumber,
        RuntimeErrorOf::UnsupportedBinaryOperator => RuntimeErrorOf::UnsupportedBinaryOperator,
        RuntimeErrorOf::UnsupportedComparisonOperator => RuntimeErrorOf::UnsupportedComparisonOperator,
        RuntimeErrorOf::UnsupportedUnaryOperator => RuntimeErrorOf::UnsupportedUnaryOperator,
        RuntimeErrorOf::IntegerOverflow => RuntimeErrorOf::IntegerOverflow,
        RuntimeErrorOf::ZeroDivisor => RuntimeErrorOf::ZeroDivisor,
        RuntimeErrorOf::UnsupportedAttribute(t) => RuntimeErrorOf::UnsupportedAttribute(t@),
        RuntimeErrorOf::IndexNotInt => RuntimeErrorOf::IndexNotInt,
        RuntimeErrorOf::ListIndexOutOfRange => RuntimeErrorOf::ListIndexOutOfRange,
        RuntimeErrorOf::StringIndexOutOfRange => RuntimeErrorOf::StringIndexOutOfRange,
        RuntimeErrorOf::StringIndexNoCharacter => RuntimeErrorOf::StringIndexNoCharacter,
        RuntimeErrorOf::UnsupportedSubscript => RuntimeErrorOf::UnsupportedSubscript,
        RuntimeErrorOf::NotCallable => RuntimeErrorOf::NotCallable,
        RuntimeErrorOf::ArgumentCount { name, expected, got } => RuntimeErrorOf::ArgumentCount { name: name@, expected, got },
        RuntimeErrorOf::BuiltinArgumentCount(x) => RuntimeErrorOf::BuiltinArgumentCount(x),
        RuntimeErrorOf::LenUnsupported => RuntimeErrorOf::LenUnsupported,
        RuntimeErrorOf::IntUnsupported => RuntimeErrorOf::IntUnsupported,
        RuntimeErrorOf::ImportExpectsString => RuntimeErrorOf::ImportExpectsString,
        RuntimeErrorOf::UnsupportedImport(t) => RuntimeErrorOf::UnsupportedImport(t@),
        RuntimeErrorOf::RunPathExpectsString => RuntimeErrorOf::RunPathExpectsString,
        RuntimeErrorOf::CannotOpen(t) => RuntimeErrorOf::CannotOpen(t@),
        RuntimeErrorOf::SourceNotLoaded(t) => RuntimeErrorOf::SourceNotLoaded(t@),
        RuntimeErrorOf::Source(x) => RuntimeErrorOf::Source(x),
        RuntimeErrorOf::NoSysModule => RuntimeErrorOf::NoSysModule,
        RuntimeErrorOf::ExpectedModule => RuntimeErrorOf::ExpectedModule,
        RuntimeErrorOf::ExpectedFunctionDefinition => RuntimeErrorOf::ExpectedFunctionDefinition,
        RuntimeErrorOf::UnsupportedExpression(x) => RuntimeErrorOf::UnsupportedExpression(x),
        RuntimeErrorOf::UnsupportedStatement(x) => RuntimeErrorOf::UnsupportedStatement(x),
        RuntimeErrorOf::ClosureScopeGone => RuntimeErrorOf::ClosureScopeGone,
        RuntimeErrorOf::OutOfFuel => RuntimeErrorOf::OutOfFuel,
    }
}

} // verus!
