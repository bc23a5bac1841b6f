# Pipe `|` explorer

**pipe-explorer** is an interactive terminal UI for building and debugging shell
pipelines, one stage at a time. Select a stage to see what it puts out, edit it,
add and delete stages, switch between stdout, stderr and both, search the output,
and copy the finished command when you leave.

## Layout

* `src/` is the library, written and verified in [Verus](https://github.com/verus-lang/verus).
  It decides everything: how control sequences are read, what is cached and what
  is run, what a key does, and what is on the screen. It touches no terminal,
  process or file.
* `app/` is the program around it: argument handling, the terminal, processes,
  threads and files.
* `tests/` runs the library on concrete values.

## How to read the library

Each type has a view, a mathematical value that it stands for, and each function
says in its `ensures` what it does to that value. The state of the application
and its reaction to every event are described in `app_model.rs`, which `app.rs`
implements. The modules named `.._laws`, and the functions named `law_..` at the
end of other modules, state what holds of several functions together: that
output which streams in line by line leads to what is shown when it is known at
once, that a finished pipeline is served from the cache, that undoing and redoing
are inverse, and the like.

What is taken from other crates and from the standard library without proof
stands in `bytes.rs` (`bytecount::count`, UTF-8 decoding), `executor/cache.rs`
(SHA-256), `search.rs` (regular expressions), `history.rs` (the clock) and
`text.rs` (characters and strings). Each of these items says in its comment what
it claims.
