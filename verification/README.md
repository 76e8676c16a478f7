# paddle

A small LISP interpreter. The library under `src/` is verified with Verus:

- `lexer`, `parser`, `lower`: source text to tokens, to expression trees, to values;
- `value`, `env`: runtime values and environments (an arena of frames);
- `numlog`: the record of the questions put to the number domain, which
  only its own methods, each asking the domain, can extend;
- `builtins`, `eval`: the built-in procedures and the evaluator, whose
  contracts are stated over a step-by-step semantics (`eval_s` and friends);
- `render`: the printed form of values;
- `cursor`: cutting source text into top-level expressions and running them;
- `split_keeping_delimiter`, `span`, `text`, `errors`: utilities.

Numbers are floating point in practice, which Verus does not reason about:
the library is generic over a `Number` domain and records each question it
puts to it, so that its contracts hold whatever the answers are. The command
under `app/` supplies IEEE doubles, files, the prompt and the terminal.

Reading a file with `require` and reading standard input happen outside the
library: when an expression needs a file that is not loaded, or input that
has not arrived, evaluation stops with `NeedsFile` or `NeedsInput` (possibly
under context layers; `Error::root` finds it). The command then restores the
environment as it was before the expression, adds the file or the input, and
runs the expression again, printing only the output lines beyond the number
it has already printed for that expression.
