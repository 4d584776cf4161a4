//! The logic of a program that runs a command once for each input, several
//! jobs at a time, and prints what the jobs print in the order of the inputs.
//!
//! The library decides and computes; it does not read files, start
//! processes or look at the clock. `arguments` reads the command line,
//! gathers the lists of inputs and writes the queue of records, one for each
//! job; `tokenizer` and `command` turn the command template and an input into
//! the command of a job; `input_iterator` hands out the records with the
//! numbers of their jobs; `execute` holds the decisions of a worker;
//! `serializer` puts the output of the jobs in order.

pub mod arguments;
pub mod command;
pub mod disk_buffer;
pub mod execute;
pub mod input_iterator;
pub mod permutations;
pub mod serializer;
pub mod shell;
pub mod text;
pub mod tokenizer;
pub mod verbose;
