//! Darwin: a grading pipeline for programming assignments. Each submission is
//! normalized against a shared project skeleton, kept as a diff, rebuilt on
//! demand, compiled and tested; results are cached per student and test.
pub mod paths;
pub mod text;
pub mod config;
pub mod project;
pub mod ecosystem;
pub mod normalize;
pub mod students;
pub mod scheduler;
pub mod darwin_config;
pub mod types;
pub mod surefire;
pub mod maven;
pub mod results;
pub mod plagiarism;
pub mod prompt;
