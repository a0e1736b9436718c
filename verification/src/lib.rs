pub mod text;
pub mod keyed;
pub mod sorting;
pub mod project;
pub mod adr;
pub mod document;
pub mod typecheck;
pub mod effective;
pub mod lowering;
pub mod smt;
pub mod evidence;
pub mod check;
pub mod cargo;
pub mod roots;
pub mod loading;
pub mod assembly;
pub mod policy;
pub mod scenario;
pub mod query;
pub mod diagnosis;
pub mod quint;
pub mod graph;
pub mod native_test;
pub mod correspondence;
pub mod bundle;
pub mod edge_text;
pub mod readback;
pub mod gate;
pub mod inventory;
pub mod solver;
pub mod model_stats;
pub mod external;
pub mod snapshot;
pub mod sql_migrations;
pub mod model_bindings;
