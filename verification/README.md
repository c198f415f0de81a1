# yeti

A small Lisp in the Clojure family, with its reader, printer and evaluator verified with
Verus.

```clj
(defn list-sum
  ([{:head h :tail t}] (+ h (list-sum t)))
  ([nil] 0))

(list-sum {:head 9 :tail {:head 7 :tail {:head 5 :tail nil}}}) ; 21
```

## Layout

- `src/` — the verified library.
  - `lexer_spec.rs`, `tokenizer.rs`: the tokenizer, specified character by character.
  - `tokens.rs`, `peeking_take_while.rs`: the same tokens read one at a time from a stream.
  - `parser.rs`: tokens to expressions; `printer.rs`: expressions to text.
  - `expression.rs`: the data of the language and the order of expressions;
    `mapping.rs`: maps and environments kept in that order; `equality.rs`.
  - `semantics.rs`: the meaning of evaluation as spec functions, with its laws;
    `evaluator.rs` and `builtins.rs`: the evaluator, proved to follow it;
    `base.rs`: the environment programs start in; `extract.rs`.
  - `numerics.rs`, `bignum.rs`: arbitrary-precision integers and ratios (over `num-bigint`
    and `num-rational`).
  - `sql.rs`: SQL statements built from maps; `server.rs`, `http.rs`: the maps that
    HTTP requests and responses are read into; `reader.rs`, `repl.rs`: the interactive loop's
    decisions.
  - `html.rs`: documents written from their vector form (`html/to-string`);
    `modules.rs`: the `html`, `sql`, `io`, `http`, `server` and `json` modules;
    `session.rs`: how a top-level form that reads or changes the world runs. `start`
    evaluates the form or names the action it needs (a query, a file to read, a request,
    ...); the program performs it and hands the outcome to `resume`.
- `app/` — the interactive program: standard input and output, and the actions
  (SQLite through `rusqlite`, files, HTTP over TCP, JSON through `serde_json`).
- `tests/` — tests of the library.

Input and output (`sql/query`, `io/read-file`, `import`, ...) run as top-level forms, or
as the value of a top-level `def`; inside another expression they fail.

Atoms (`atom`, `@`, `swap!`, `reset!`) keep their values in the environment, under a
name the reader never produces, and every evaluation passes them on: what one
expression writes to an atom, whatever it is nested in (an argument, a function body, a
`let`, a `for`), every later one reads.

Maps and environments are kept as vectors sorted by a total order on expressions that
the library defines and proves. Maps are keyed by expressions: declared as an outside
type, `im::OrdMap<Expression, Expression>` would hold `Expression` inside itself, which
Verus refuses for a declared type, and its order would rest on an `Ord` of expressions
that Verus does not read.
