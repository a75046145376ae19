//! A plain-text to-do list: one task per line, with a priority, dates and
//! `#tags` embedded in the text.

pub mod date;
pub mod input;
pub mod mutate;
pub mod priority;
pub mod query;
pub mod select;
pub mod state;
pub mod store;
pub mod task;
pub mod text;

pub use date::{date_of_clock, today, Date};
pub use input::{
    content_answer, due_answer, edit_task, parse_ids, priority_answer, trim, DateError, Edit,
    Field,
};
pub use mutate::{complete_tasks, delete_tasks, mark_tasks, remove_tasks, Mark};
pub use priority::Priority;
pub use query::{DisplayMode, SortKey, TaskConf};
pub use select::{any_resolved, build_map, order, Selection};
pub use state::State;
pub use store::{get_tasks, parse_lines, write_tasks, LoadError};
pub use task::{parse_line, FormatError, Task};
pub use text::extract_tags;
