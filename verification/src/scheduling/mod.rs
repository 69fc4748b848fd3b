//! Timed jobs, webhook jobs and heartbeat tasks.

pub mod active_hours;
pub mod cron_expr;
pub mod cron_loader;
pub mod cron_store;
pub mod cron_types;
pub mod guard_laws;
pub mod heartbeat_tasks;
pub mod job;
pub mod job_laws;
pub mod job_state;
pub mod operation_laws;
pub mod prompt_scan;
pub mod registry_laws;
pub mod schedule;
pub mod scheduler;
pub mod scheduler_laws;
pub mod silence;
pub mod task_laws;
pub mod template_laws;
pub mod timing_laws;
pub mod webhook;
pub mod webhook_auth;
pub mod webhook_guard;
pub mod webhook_laws;
pub mod webhook_loader;
pub mod webhook_path;
pub mod webhook_payload;
