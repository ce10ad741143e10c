# amyst

A small programming language in the style of *Crafting Interpreters*:
a scanner, a recursive-descent parser into an arena of expressions and
statements, and a tree-walking interpreter.

`src/` is the verified library (Verus):

- `lexer`: tokens and the scanner, specified against a model of scanning
  on the source's characters;
- `parser`: the grammar as spec functions on token sequences (`grammar`)
  and the parser proved to follow it (`parser`);
- `ast`: the arena, its model, and printing of expressions in prefix form;
- `interpreter`: the stack of scopes that variables live in, and the
  messages of run-time errors. Each scope is a list of name–value pairs
  in which no name occurs twice, not a hash map: the hash maps that Verus
  specifies prove their contracts only for keys with a specified hash and
  equality, such as integers, and names here are string slices;
- `engine`: source text to syntax tree;
- `diagnostics`, `text`: error texts and string building.

`app/` is the `amyst` command (`amyst run script.amy`) and the
interpreter proper, which computes with floating-point numbers.
