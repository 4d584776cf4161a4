//! What a worker decides for each job that it runs.

pub mod exec_inputs;
