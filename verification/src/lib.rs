//! A terminal viewer for git diffs, built for reviewing branches.
pub mod app;
pub mod changes;
pub mod cli;
pub mod commit;
pub mod config;
pub mod explain;
pub mod git;
pub mod group;
pub mod order;
pub mod outline;
pub mod path;
pub mod report;
pub mod style;
pub mod syntax;
pub mod text;
pub mod theme;
pub mod ui;
pub mod util;
pub mod viewed;
pub mod width;
