# py0

An interpreter for a small subset of Python, written in Verus.

The library (`src/`) holds the whole pipeline, with contracts checked by Verus:

- `lexer` — turns source text into tokens, tracking indentation (`Indent` /
  `Dedent`) and decoding string literals; specified by a step-by-step scan.
- `parser`, `ast_nodes`, `ast` — a recursive-descent parser over the tokens,
  specified by a grammar on token sequences, producing syntax trees.
- `env` — nested scopes: lookup, binding in the innermost frame, assignment
  to the innermost frame that binds a name, and the scope of a call.
- `value`, `operator` — runtime values and the operators on them: integer
  arithmetic with overflow and remainder checks, string concatenation and
  ordering, truth, and printed forms.
- `semantics` — what a program means, as functions on syntax trees and
  value views: the outcome of an expression, a call, a statement, a loop
  and a block, given the scopes it runs in and a number of steps; more
  steps never change an outcome that did not run out of them.
- `eval`, `function` — the evaluator: expressions, statements, calls of
  defined functions and of the runtime's functions, and `run_path`. Each is
  proved to give the outcome that `semantics` assigns, wherever that
  outcome does not rest on the host.
- `host` — what the evaluator leaves to its host: floating-point numbers.
  Nothing is assumed of the host's answers.

The runtime holds the lines `print` has written (`PyRuntime::output`) and
the source files `run_path` may run (`PyRuntime::sources`). A `run_path` on
a file the runtime was not given stops with `SourceNotLoaded`; the caller
reads the file and runs the program again with it added.

`app/main.rs` is the command-line interpreter: it reads the script, supplies
`f64` floats as the host, reads the files `run_path` asks for, writes the
output and reports errors.

`tests/` runs the pieces and whole programs.
