//! Recurring tasks and their reminders: the date arithmetic of recurrence
//! rules, the registry of armed reminders, the startup pass over stored
//! reminders, and what completing a task produces.
pub mod calendar;
pub mod models;
pub mod recurrence;
pub mod scheduler;
pub mod completion;
pub mod errors;
pub mod reconcile;
pub mod subtasks;
