//! The shells whose export syntax the resolver can write.
use vstd::prelude::*;

verus! {

/// A target shell family.
#[derive(Debug, Clone, Copy, PartialEq, Eq, Structural)]
pub enum ShellType {
    Bash,
    Fish,
    Zsh,
    Nu,
}

impl Default for ShellType {
    fn default() -> (r: ShellType)
        ensures
            r == ShellType::Bash,
    {
        ShellType::Bash
    }
}

} // verus!
