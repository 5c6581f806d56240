//! The records that tasks, sub-tasks, categories and tags are stored and
//! exchanged as.
use std::collections::HashMap;
use vstd::prelude::*;

verus! {

/// A task. `status` is `"todo"` or `"completed"`; dates are `YYYY-MM-DD` and
/// reminder times are RFC 3339 timestamps.
#[derive(Debug)]
pub struct Task {
    pub id: String,
    pub title: String,
    pub description: Option<String>,
    pub status: String,
    pub priority: String,
    pub category_id: Option<String>,
    pub due_date: Option<String>,
    pub reminder_time: Option<String>,
    pub recurrence_rule: Option<RecurrenceRule>,
    pub completed_at: Option<String>,
    pub sort_order: i64,
    pub created_at: String,
    pub updated_at: String,
    pub sub_tasks: Option<Vec<SubTask>>,
    pub tags: Option<Vec<Tag>>,
    pub category: Option<Category>,
}

/// A step of a task; sub-tasks nest through `parent_id`.
#[derive(Debug)]
pub struct SubTask {
    pub id: String,
    pub task_id: String,
    pub parent_id: Option<String>,
    pub title: String,
    pub description: Option<String>,
    pub priority: String,
    pub due_date: Option<String>,
    pub completed: bool,
    pub sort_order: i64,
    pub created_at: String,
    pub children: Option<Vec<SubTask>>,
}

#[derive(Debug)]
pub struct Category {
    pub id: String,
    pub name: String,
    pub color: Option<String>,
    pub sort_order: i64,
    pub created_at: String,
}

#[derive(Debug)]
pub struct Tag {
    pub id: String,
    pub name: String,
    pub color: Option<String>,
    pub created_at: String,
}

/// How a task repeats. `rule_type` is `"daily"`, `"weekly"`, `"monthly"` or
/// `"custom"`; weekdays count 0 for Sunday up to 6 for Saturday.
#[derive(Debug)]
pub struct RecurrenceRule {
    pub rule_type: String,
    pub interval: i64,
    pub days_of_week: Option<Vec<i64>>,
    pub day_of_month: Option<i64>,
    pub end_date: Option<String>,
}

#[derive(Debug)]
pub struct CreateTaskInput {
    pub title: String,
    pub description: Option<String>,
    pub priority: Option<String>,
    pub category_id: Option<String>,
    pub due_date: Option<String>,
    pub reminder_time: Option<String>,
    pub recurrence_rule: Option<RecurrenceRule>,
}

#[derive(Debug)]
pub struct UpdateTaskInput {
    pub title: Option<String>,
    pub description: Option<Option<String>>,
    pub priority: Option<String>,
    pub category_id: Option<Option<String>>,
    pub due_date: Option<Option<String>>,
    pub reminder_time: Option<Option<String>>,
    pub recurrence_rule: Option<Option<RecurrenceRule>>,
}

#[derive(Debug)]
pub struct CreateSubTaskInput {
    pub title: String,
    pub description: Option<String>,
    pub priority: Option<String>,
    pub due_date: Option<String>,
    pub sort_order: Option<i64>,
    pub parent_id: Option<String>,
}

#[derive(Debug)]
pub struct UpdateSubTaskInput {
    pub title: Option<String>,
    pub description: Option<Option<String>>,
    pub priority: Option<String>,
    pub due_date: Option<Option<String>>,
    pub completed: Option<bool>,
    pub sort_order: Option<i64>,
}

#[derive(Debug)]
pub struct CreateCategoryInput {
    pub name: String,
    pub color: Option<String>,
}

#[derive(Debug)]
pub struct UpdateCategoryInput {
    pub name: Option<String>,
    pub color: Option<String>,
    pub sort_order: Option<i64>,
}

#[derive(Debug, Default)]
pub struct TaskFilter {
    pub category_id: Option<Option<String>>,
    pub tag_ids: Option<Vec<String>>,
    pub priority: Option<String>,
    pub status: Option<String>,
    pub due_date_from: Option<String>,
    pub due_date_to: Option<String>,
    pub sort_by: Option<String>,
    pub sort_order: Option<String>,
}

#[derive(Debug)]
pub struct DailyTrend {
    pub date: String,
    pub completed: i64,
    pub created: i64,
}

#[derive(Debug)]
pub struct ReorderTaskItem {
    pub id: String,
    pub sort_order: i64,
}

/// An error as callers see it: a code such as `"NOT_FOUND"`,
/// `"VALIDATION_ERROR"` or `"DB_ERROR"`, and a message.
#[derive(Debug)]
pub struct AppError {
    pub code: String,
    pub message: String,
    pub details: Option<HashMap<String, String>>,
}

/// The task as completed, and the next instance of a recurring task.
#[derive(Debug)]
pub struct CompleteTaskResult {
    pub completed_task: Task,
    pub next_task: Option<Task>,
}

#[derive(Debug)]
pub struct ExportData {
    pub version: i64,
    pub exported_at: String,
    pub tasks: Vec<ExportTaskRow>,
    pub sub_tasks: Vec<ExportSubTaskRow>,
    pub categories: Vec<Category>,
    pub tags: Vec<Tag>,
    pub task_tags: Vec<TaskTagRow>,
}

/// A task row as exported; `recurrence_rule` holds the rule's JSON text.
#[derive(Debug)]
pub struct ExportTaskRow {
    pub id: String,
    pub title: String,
    pub description: Option<String>,
    pub status: String,
    pub priority: String,
    pub category_id: Option<String>,
    pub due_date: Option<String>,
    pub reminder_time: Option<String>,
    pub recurrence_rule: Option<String>,
    pub completed_at: Option<String>,
    pub sort_order: i64,
    pub created_at: String,
    pub updated_at: String,
}

#[derive(Debug)]
pub struct ExportSubTaskRow {
    pub id: String,
    pub task_id: String,
    pub parent_id: Option<String>,
    pub title: String,
    pub description: Option<String>,
    pub priority: String,
    pub due_date: Option<String>,
    pub completed: bool,
    pub sort_order: i64,
    pub created_at: String,
}

#[derive(Debug)]
pub struct TaskTagRow {
    pub task_id: String,
    pub tag_id: String,
}

} // verus!
