//! Verified core of an acceptance-test runner.
pub mod attributes;
pub mod cargo;
pub mod cases;
pub mod command;
pub mod dispatch;
pub mod duration;
pub mod execution;
pub mod function;
pub mod junit;
pub mod junit_xml;
pub mod orchestrator;
pub mod plan;
pub mod preflight;
pub mod preflight_runner;
pub mod program;
pub mod protocol;
pub mod registration;
pub mod registry;
pub mod reporter;
pub mod retry;
pub mod runner;
pub mod schedule;
pub mod scheduler;
pub mod state;
pub mod suite;
pub mod syntax;
pub mod testcase;
pub mod text;
pub mod types;
