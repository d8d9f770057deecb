//! Provider-neutral runtime, query, and mutation rules for collections of
//! Markdown records.

pub mod answer_laws;
pub mod base_graph;
pub mod base_laws;
pub mod batch;
pub mod benchmark;
pub mod benchmark_laws;
pub mod cache_source;
pub mod calendar;
pub mod canonical;
pub mod canonical_operation;
pub mod catalog;
pub mod change_laws;
pub mod changes;
pub mod collection;
pub mod collection_laws;
pub mod context;
pub mod cursor;
pub mod cursor_laws;
pub mod diagnostics;
pub mod diff;
pub mod digest;
pub mod engine;
pub mod execute;
pub mod execution_laws;
pub mod expressions;
pub mod external;
pub mod feed;
pub mod feed_laws;
pub mod filesystem;
pub mod gate;
pub mod hosted_base;
pub mod hosted_compile;
pub mod hosted_laws;
pub mod hosted_links;
pub mod hosted_mutation;
pub mod hosted_plan;
pub mod hosted_query;
pub mod hosted_query_laws;
pub mod hosted_reduction;
pub mod hosted_residual;
pub mod hosted_resource;
pub mod hosted_validation;
pub mod hosted_view;
pub mod json;
pub mod lowering;
pub mod lowering_laws;
pub mod mutation_laws;
pub mod numbers;
pub mod operation_laws;
pub mod operation_values;
pub mod ordering;
pub mod plan_laws;
pub mod planner;
pub mod projection;
pub mod provider_error;
pub mod query;
pub mod query_envelope;
pub mod query_laws;
pub mod record_load;
pub mod record_path;
pub mod reduction_laws;
pub mod resolutions;
pub mod results;
pub mod runtime_laws;
pub mod sorting;
pub mod source_laws;
pub mod text;
pub mod text_map;
pub mod value_laws;
pub mod wire_shapes;
