pub mod build_laws;
pub mod build_runs;
pub mod build_waits;
pub mod cache;
pub mod containers;
pub mod dependencies;
pub mod deployment;
pub mod docker;
pub mod git_job;
pub mod git_laws;
pub mod hb_state;
pub mod init_runs;
pub mod initialize;
pub mod name_map;
pub mod outside;
pub mod paths;
pub mod repo_build;
pub mod repository;
pub mod repository_laws;
pub mod state;
pub mod stats;
pub mod submodules;
pub mod sync;
pub mod sync_again;
pub mod sync_exact;
pub mod sync_laws;
pub mod text;
pub mod text_laws;
pub mod views;
pub mod wait_flag;
pub mod worker;
