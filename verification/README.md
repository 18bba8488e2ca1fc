# componentize_py

A library that turns a Python application into a WebAssembly component, written in Rust
and verified with Verus.

- `bindings`, `names`: the core module that binds a world to the Python runtime.
- `link`, `launch`: what a component is linked from, and what it is started with.
- `parse`, `tree`: reading a component.
- `survey`, `instrument`: checking that a component keeps to the rules under which its
  state can be captured, and adding functions through which it is captured.
- `initialize`, `capture`, `snapshot`, `segments`: capturing the state and putting it
  into a new component.
- `rules`, `exposed`, `preserved`: what is proved of all of this together.
- `wasm`, `format`, `size`, `encode`, `fold`, `text`, `error`: what the others are made of.

`app/` holds what reads and writes files, runs components and links libraries.

A component can be initialized ahead of time if

- it has a flat structure, that is no subcomponents,
- it has a single memory and a single table, and no function changes the table,
- it has no globals of reference type,
- each module is instantiated at most once, and
- if it has a memory, a single module exports a mutable `__stack_pointer` of type I32.
