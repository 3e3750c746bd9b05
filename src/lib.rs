//! Turns bullet lines of plain-text notes into structured GTD tasks: status,
//! contexts and dates are read from inline tokens, tasks are grouped per file
//! into projects, filtered, and pivoted by context.

pub mod text;
pub mod status;
pub mod token;
pub mod context;
pub mod dates;
pub mod task;
pub mod filter;
pub mod project;
pub mod order;
pub mod sort;
pub mod pivot;
pub mod starred;
pub mod config;
pub mod laws;

pub use crate::config::{inbox_line, Args, ConfigFile, ServerConfig};
pub use crate::context::TaskContext;
pub use crate::dates::TaskDates;
pub use crate::filter::TaskFilter;
pub use crate::pivot::{flat_tasks, pivot_by_context, ContextGroup};
pub use crate::project::{build_project, is_template_line, select_tasks, Project, StatusGroup};
pub use crate::starred::{add_starred, toggle_starred};
pub use crate::status::{TaskStatus, TermColor};
pub use crate::task::{is_task_line, parse_task, Task};
