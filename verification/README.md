# mdbase

The core of a runtime for collections of Markdown records: queries, hosted query
and mutation planning, change detection, a durable change feed, pinned reads, and
the bookkeeping of operations. The library is written in Verus: its functions state
what they do in `requires` and `ensures`, and Verus proves it. What an outside call
decides (time, chance, a shared lock) is stated as far as it holds of every outcome.

- `src/` is the library. It does no input or output. What parsers, expression
  evaluators, and transaction stores give is passed to it as plain values.
- `tests/` runs the library on concrete values.
- `app/` is ordinary Rust around it: files, the cache database, disposable stages,
  stored journals, running queries, and guards.

## Modules

| Area | Modules |
| --- | --- |
| Values | `text`, `text_map`, `json`, `numbers`, `canonical`, `digest`, `calendar`, `sorting`, `ordering` |
| Queries | `expressions`, `planner`, `engine`, `query`, `query_laws`, `results`, `cache_source`, `execute` |
| Records | `collection`, `catalog`, `record_path`, `record_load`, `projection`, `diagnostics` |
| Hosted queries | `hosted_plan`, `lowering`, `query_envelope`, `hosted_query`, `hosted_compile`, `hosted_residual`, `hosted_reduction`, `hosted_links` |
| Hosted views, mutations, validation | `hosted_base`, `base_graph`, `hosted_view`, `hosted_mutation`, `hosted_validation`, `hosted_resource`, `benchmark` |
| Operations | `operation_values`, `canonical_operation`, `wire_shapes`, `context`, `gate`, `provider_error` |
| Changes | `changes`, `diff`, `external`, `resolutions`, `feed`, `cursor`, `batch`, `filesystem` |

## What is trusted

Calls into `serde_json`, `serde_jcs`, `serde_yaml`, `sha2`, `chrono`, `uuid`, and a few functions
of the standard library stand behind small wrappers, each with a comment that says
what is claimed of the call. Everything else is proved.
