# multi_stage_planner

Plans queries over a semantic data model whose members take more than one pass: measures over
measures, ranks, rolling windows, running totals, dimensions derived from measures. The planner lays
out the chain of common table expressions ("stages") that such a query needs. It decides what each
stage computes, for which filters and dimensions, and which other stages it reads.

The library is written in Verus, and Verus proves the contracts of its functions. What it does not
prove are the contracts of seven small wrappers around calls into `indexmap`, `itertools` and the
standard library, in `switch`, `window` and `text`: these are trusted, with the declaration of
`IndexMap` and the name for what a map holds. Each wrapper says in its doc comment which
call it makes and what is claimed of it.

## Layout

- `planner`: the planner. `MultiStageQueryPlanner::plan_queries` plans a query.
- `plan`: what a plan is, step by step. The contracts of `planner` are stated over these functions.
- `soundness`, `failures`, `laws`: what holds of every plan, when planning fails, and how filters,
  states, switches and windows relate.
- `directive`, `switch`, `window`: filter directives, switches and rolling windows.
- `symbol`, `filter`, `granularity`, `query_properties`, `stage`, `cte`: the data that planning
  reads and produces, with the operations it needs.
- `filter_edit`, `static_filter`: changes to filters, and case branches that filters rule out.

Turning a stage into a query is left to the caller: `plan_queries` takes a function for it.
