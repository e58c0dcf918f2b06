//! Task, project and recurring-series logic for a Kanban-style task board:
//! validation of settings and series, default resolution for new tasks,
//! recurrence date generation, project-tree queries, status-line health
//! tiers and statistics, and the pure planning steps behind every command.

pub mod dates;
pub mod text;
pub mod ids;
pub mod clone;
pub mod settings;
pub mod series;
pub mod recurrence;
pub mod task;
pub mod status_tier;
pub mod project;
pub mod project_tree;
pub mod commands;
pub mod status_stats;
pub mod layout;
pub mod status_history;
pub mod storage;
