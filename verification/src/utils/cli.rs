//! The commands that the `dockerit` program takes.

use vstd::prelude::*;

verus! {

/// A parsed command line.
#[derive(Debug, Clone, Copy, PartialEq, Eq, Structural)]
pub struct Cli {
    pub command: Command,
}

/// The top-level commands.
#[derive(Debug, Clone, Copy, PartialEq, Eq, Structural)]
pub enum Command {
    /// Generate a container file (also `g`).
    Generate { subcommand: GenerateSubcommand },
}

/// What `generate` makes.
#[derive(Debug, Clone, Copy, PartialEq, Eq, Structural)]
pub enum GenerateSubcommand {
    Dockerfile,
    DockerCompose,
}

} // verus!
