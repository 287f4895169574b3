//! A harness that runs one command and reports what it used: its peak resident
//! memory and other resource accounting by the kernel, samples of its status, and
//! the memory of a cgroup of its own.
//!
//! This library holds what the harness reads, decides and writes: the readers of
//! the kernel's text files, the summaries made of them, the order of the steps of
//! a run, and the texts that it puts out. It does no input or output itself. What
//! a file held or what came of a system call is handed in as a plain value.
pub mod args;
pub mod cgroup;
pub mod decimal;
pub mod output;
pub mod proc_status;
pub mod profiler;
pub mod render;
pub mod run;
pub mod rusage;
pub mod spawn;
pub mod text;
pub mod timeout;
