# tff

A terminal front end for ffmpeg. Inputs, modifiers and outputs are nodes of a
graph; wires route streams from one to the next; the graph stands for one
ffmpeg command line.

- `src/` is the library, verified with Verus: the graph and the command lines it
  stands for (`graph`), what ffmpeg and the players print and take (`ffmpeg`,
  `player`), typed paths (`paths`), and the editor as a state machine (`app`).
  A key goes in, and the new state and a request for work outside come out.
- `tests/` run the library on concrete values.
- `app/` is the program around it: drawing, processes, files and
  floating-point times.

Contracts speak of views: `Graph` has a `GraphView`, `App` has an `AppView`, and
each function's `ensures` gives the new view as a spec function of the old one.
What holds across functions stands as public proof functions in
`graph/laws.rs`, `graph/command_laws.rs`, `app/laws.rs` and `app/behaviour.rs`,
and beside the types that smaller ones are about.

What is believed and not proved: line editing by tui-input (`line`), and
`String::push` and `str::to_lowercase` of the standard library (`text`).
