//! The start-up working-directory guard.
//!
//! On start the surrounding process tries to change into the orchestrator's
//! working tree.  A failed change is fatal unless the process was invoked
//! with the explicit manual-override flag among its arguments.

use vstd::prelude::*;

verus! {

/// The fatal condition: the working directory could not be changed and no
/// manual-override flag was given.
pub struct WorkingDirectoryError;

/// Whether any process argument is the manual-override token `--manual`.
pub fn has_manual_flag(args: &Vec<String>) -> (r: bool)
    ensures
        r == exists|i: int| 0 <= i < args@.len() && args@[i]@ == "--manual"@,
{
    let needle = String::from_str("--manual");
    let n = args.len();
    let mut i: usize = 0;
    while i < n
        invariant
            n == args@.len(),
            i <= n,
            needle@ == "--manual"@,
            forall|j: int| 0 <= j < i ==> args@[j]@ != "--manual"@,
        decreases n - i,
    {
        if args[i] == needle {
            return true;
        }
        i += 1;
    }
    false
}

/// Decides the start-up guard: a failed directory change is accepted only
/// under the manual-override flag; otherwise it is fatal.
pub fn check_working_directory(chdir_succeeded: bool, manual_flag: bool) -> (r: Result<
    (),
    WorkingDirectoryError,
>)
    ensures
        r is Ok <==> (chdir_succeeded || manual_flag),
{
    if chdir_succeeded || manual_flag {
        Ok(())
    } else {
        Err(WorkingDirectoryError)
    }
}

} // verus!
