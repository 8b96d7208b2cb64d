//! Source-qualified project, task and action graphs for workspaces that are
//! composed of several independently configured source roots.

pub mod action_affected;
pub mod action_builder;
pub mod action_context;
pub mod action_install;
pub mod action_laws;
pub mod action_node;
pub mod action_partition;
pub mod action_run;
pub mod action_scene;
pub mod action_setup;
pub mod action_state;
pub mod action_targets;
pub mod action_tasks;
pub mod affected;
pub mod affected_laws;
pub mod affected_tracker;
pub mod benchmark;
pub mod changed_files;
pub mod changed_files_query;
pub mod composition_laws;
pub mod config;
pub mod daemon;
pub mod dag;
pub mod digest;
pub mod discovery;
pub mod discovery_laws;
pub mod environment;
pub mod expander;
pub mod expander_laws;
pub mod focus;
pub mod focus_laws;
pub mod fold;
pub mod graph;
pub mod id;
pub mod invocation;
pub mod job_laws;
pub mod keys;
pub mod keyset;
pub mod lookup_laws;
pub mod naming_laws;
pub mod order;
pub mod path;
pub mod path_laws;
pub mod plugin_config;
pub mod plugin_host;
pub mod plugin_laws;
pub mod plugin_registry;
pub mod project_compose;
pub mod project_composition_laws;
pub mod project_graph;
pub mod project_queries;
pub mod protocol;
pub mod query_laws;
pub mod record_laws;
pub mod relation_laws;
pub mod report_laws;
pub mod reports;
pub mod request_laws;
pub mod run_laws;
pub mod runtime;
pub mod scene_laws;
pub mod scopes;
pub mod sequence_laws;
pub mod service_laws;
pub mod session;
pub mod source;
pub mod source_reports;
pub mod table;
pub mod target_laws;
pub mod task;
pub mod task_compose;
pub mod task_composition_laws;
pub mod task_fingerprint;
pub mod task_graph;
pub mod task_laws;
pub mod task_queries;
pub mod text;
pub mod vcs;
pub mod vcs_conformance;
pub mod vcs_laws;
pub mod vcs_overlay;
pub mod wait_laws;
pub mod walks;
pub mod watch;
pub mod watch_laws;
pub mod workspace_watch;
