//! Ormada: schema model, migration planning and SQL generation for a Django-style ORM.

pub mod aggregations;
pub mod attr_args;
pub mod batching;
pub mod cache;
pub mod codegen_plan;
pub mod config;
pub mod diff;
pub mod django_model;
pub mod error;
pub mod format;
pub mod introspect;
pub mod migration;
pub mod model_def;
pub mod naming;
pub mod parser;
pub mod pending;
pub mod projection;
pub mod query;
pub mod router;
pub mod schema;
pub mod source;
pub mod sqlgen;
pub mod text;
pub mod tracker;
pub mod traits;
pub mod types;
pub mod upsert;
