pub mod scoring;
pub mod text;
pub mod weekly;
pub mod stats;
pub mod streak;
pub mod time;
pub mod calendar;
pub mod cadence;
pub mod order;
pub mod notify;
pub mod types;
pub mod calibrate;
pub mod artifact;
pub mod source;
pub mod classify;
pub mod generate;
pub mod records;
pub mod finalise;
pub mod pipeline;
pub mod scale_down;
pub mod program_request;
pub mod handlers;
pub mod reminders;
pub mod materialise;
pub mod planner;
pub mod session;
pub mod commands;
pub mod enrollments;
