# cleave

The middle of a compiler for a small language with algebras: syntax trees from parse
trees, type inference, and rewriting of programs in continuation-passing style by the
laws that the algebras declare.

`src/` is the library. Verus proves the contract of every function in it but one. Most
contracts stand on the functions themselves; those of `dup` and `same_key` stand on the
traits that have them. The one that is believed is `format_attrs`, which hands attributes to
the standard library's `Debug` and only gives its text a name.

- `tree`, `ast`: parse trees and syntax trees. `lower`, `lower_items`: from the one to
  the other; `lower_specs` says what each construct becomes.
- `ty`, `types`, `subst`, `unify`, `const_eval`: types, substitutions, unification and
  the constants that types hold.
- `registry`: what a program declares. `infer_*`: inference of types, with schemes,
  demands on algebras, and methods. `mutability`: which names may be assigned to.
  `errors`, `print`: what is reported, and how it reads.
- `cps`, `vars`, `fresh`, `rename`, `shapes`: programs in continuation-passing style.
  `escape`: which structs outlive the place where they are made.
- `lang`, `forward`, `patterns`, `derivative_rules`, `zero`: terms, the translation of
  code into terms, and the rules that terms are rewritten by. `rebuild`: from terms back
  to code. `optimize`, `derive`: a pass that puts cheaper forms in place, and one that
  makes functions that compute derivatives.
- `*_laws`: what holds of several functions together. `running`, `alike`, `walk_keeps`,
  `walk_calls`, `round_trip`: code and the terms that it is translated into give the same
  results. `unifiers`: unification binds no more than it must. `typing`, `infer_keeps`,
  `infer_typed`, `infer_finish`: the types that inference finds for the nodes of a function
  fit together. `simple`, `plain_keeps`, `plain_exprs`, `plain_fns`: in programs without
  packs, computed constants and generics that stand for constants, so do those of every
  function that is accepted. `node_ids`, `node_counts`: the numbers of nodes, and how many of
  them a parse tree takes.
  `type_texts`: types that are written one after the other are told apart again.
  `search_laws`: looking for an impl changes nothing of what is known.
- `table`, `listing`, `text`, `text_parts`: maps, lists of names and texts.

`app/` holds the e-graph (`egg`) that finds the best form of a term and the conversion
of `pest`'s parse trees. `tests/` runs the library, with a real e-graph where one is
needed.

Two things are left to `app/`. Saturation is bounded by time, and what an e-graph keeps
of its classes comes from impls of `egg`'s traits; `optimize` and `derive` say what to
saturate and take what was found, whatever it is. How floating-point numbers are read
and printed is not known in `src/`, which holds them by their bits or as they are
written.
