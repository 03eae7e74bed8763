# SkiPass

SkiPass optimizes Skia pictures with e-graphs. A picture's records are
turned into SkiLang, a functional representation of what they draw; the
e-graph library rewrites it; the best expression is written back as a
program of instructions that Skia replays.

This crate is the verified part of SkiPass, written with Verus: every
function in `src/` carries a contract that Verus proves, except the few
wrappers of `egg` calls marked `external_body`, whose contracts are
trusted. Expressions are `egg::RecExpr`s of the crate's languages.

## Layout

- `src/egg_expr.rs`: the `egg` types that the contracts speak of, and the
  conversions of ids.
- `src/not_nan.rs`: doubles carried as bit patterns, NaN tests and order.
- `src/protos/`: the messages exchanged with Skia, as plain data.
- `src/ski_lang.rs`: SkiLang nodes, expressions and their terms, the
  conversions of their parameters to and from messages, and the
  extraction cost.
- `src/sk_record_to_ski_lang.rs`: records to a SkiLang expression.
- `src/ski_lang_rules.rs`: the guards and the computed parameters of the
  rewrite rules.
- `src/ski_lang_to_program.rs`: an optimized expression to instructions.
- `src/run_info.rs`: the record of a failed run.
- `src/expanded_ski_lang.rs`, `src/ski_lang_converters.rs`,
  `src/build_ski_lang_expr.rs`: the expanded form of SkiLang, whose
  parameters are nodes of their own, its conversions to and from messages,
  and its construction from records with a stack.
- `src/skpicture.rs`: picture expressions written back as draw commands.
- `src/ski_opt/`: SkiOpt, the first SkiLang, over pictures of rectangles.
- `app/`: what Verus does not check: the e-graph language and rules, the
  optimization run, the protobuf codecs, the C entry points, file output
  and drawing with Skia.
- `tests/`: tests of the library.
