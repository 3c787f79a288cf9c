//! The standing instructions sent to the model in each workflow.
use vstd::prelude::*;

verus! {

/// How a project is laid out.
pub const PROJECT_STRUCTURE: &'static str = "[project structure]
The project is a Rust crate. UserSpecification.md at the root states what the
project must do and is the source of truth; a module may have its own
UserSpecification.md and a ModuleDependencies.md listing the modules it uses.
build.sh builds and tests the project. LLMInstructions.md holds standing
instructions. The directories agent-config, agent-state and app-data belong to
the tooling and are never to be read or changed.";

/// How to write file changes.
pub const CODE_MODIFICATION_INSTRUCTIONS: &'static str = "[code modification instructions]
To replace a file, write a line ^^^ followed by its path, then its complete new
content, then a line ^^^end. To delete a file, write a line ^^^ followed by its
path and then a line ^^^delete. Paths are relative to the project root. Never
change .gitignore, Cargo.lock, build.sh, LLMInstructions.md or any
UserSpecification.md.";

/// The first request of the committing-code workflow.
pub const COMMITTING_CODE_INITIAL_QUERY: &'static str = "[committing code]
Carry out the supervisor query below on the codebase that follows. Reply with
the file changes that make build.sh pass.";

/// A request to repair a failed build.
pub const COMMITTING_CODE_REPAIR_QUERY: &'static str = "[repair]
The changes listed under file replacements were applied and build.sh failed with
the output below. Reply with the file changes that make it pass while still
carrying out the supervisor query.";

/// A request for the files that a repair needs to see.
pub const COMMITTING_CODE_EXTRA_CODE_QUERY: &'static str = "[extra code]
build.sh failed with the output below. List the files not yet in the codebase
that are needed to repair the failure, one path per line, between a line
%%%files and a line %%%end.";

/// A request for the files that the next request needs.
pub const CONTEXT_BUILDER_CONTEXT_QUERY: &'static str = "[context query]
Another request, shown below, will be made about this project. From the project
summary, choose the files that request needs to see. List them one path per
line between a line %%%files and a line %%%end.";

/// A request to check that code, documentation and specification agree.
pub const CONSISTENCY_CHECK: &'static str = "[consistency check]
Report every place where the code, its documentation and the specifications
disagree with one another, and what the supervisor query asks about.";

/// How an auto-workflow reply is shaped.
pub const RESPONSE_FORMAT_INSTRUCTIONS: &'static str = "End the reply with exactly one status tag:
@@@@task-success@@@@ when the stage is passed, @@@@changes-requested@@@@ when
the specification must change first, or @@@@changes-attempted@@@@ when the
reply carries file changes. A comment for the supervisor may stand between a
line %%%%comment%%%% and a line %%%%end%%%%, at most once. File changes are
written as ^^^path, the content, ^^^end; a content of ^^^delete deletes the
file.";

/// The self-consistency review of a specification.
pub const SELF_CONSISTENT: &'static str = "Check that the target user specification is complete, unambiguous and consistent
with itself and with the top level UserSpecification.md.";

/// Implementing a module whose specification was implemented before.
pub const IMPLEMENTED_WITH_CACHE: &'static str = "The module was implemented against the cached specification. Bring the code in
line with the changes between the cached and the current target specification.";

/// Implementing a module for the first time.
pub const IMPLEMENTED_NO_CACHE: &'static str = "Check that the module's code implements the target user specification, and
write the changes it needs where it does not.";

/// Documenting a module.
pub const DOCUMENTED: &'static str = "Check that the module's files document its public interface as the target
user specification describes it, and write the documentation it lacks.";

/// Testing a module whose specification was tested before.
pub const HAPPY_PATH_TESTED_WITH_CACHE: &'static str = "The module's happy paths were tested against the cached specification. Bring
the tests in line with the changes in the current target specification.";

/// Testing a module for the first time.
pub const HAPPY_PATH_TESTED_NO_CACHE: &'static str = "Check that the module has tests for every happy path of the target user
specification, and write the tests it lacks.";

} // verus!
