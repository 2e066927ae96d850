//! Supervision core for long-running coding-agent sessions.

pub mod audit;
pub mod brief_laws;
pub mod clock;
pub mod decimal;
pub mod exchange_laws;
pub mod handoff_file;
pub mod handoff_laws;
pub mod harvest;
pub mod injector;
pub mod injector_laws;
pub mod journal;
pub mod journal_laws;
pub mod ladder;
pub mod latches;
pub mod listing_laws;
pub mod marker_values;
pub mod parker;
pub mod parker_laws;
pub mod parts;
pub mod paths;
pub mod pending;
pub mod pr_runs;
pub mod progress;
pub mod progress_laws;
pub mod prompt_text;
pub mod prompts;
pub mod rewrite;
pub mod run_refs;
pub mod run_map;
pub mod runs;
pub mod sequence_laws;
pub mod session;
pub mod session_map;
pub mod slug_laws;
pub mod sweep_laws;
pub mod table;
pub mod text;
pub mod text_laws;
pub mod tick_laws;
pub mod validation;
pub mod words;
