//! What the background worker is asked to do.
use vstd::prelude::*;
use crate::text::{chars_of, range_equals};

verus! {

broadcast use vstd::string::group_string_axioms;

#[derive(Clone, Copy, Debug, PartialEq, Eq, Structural)]
pub enum WorkerCommand {
    Materialise,
    Finalise,
    Ingest,
    Notify,
    /// Every job once, in that order.
    RunOnce,
}

/// The command a worker invocation names; none means `run-once`, and an
/// unknown one is refused with the usage line.
pub fn parse_command(arg: Option<&str>) -> (command: Result<WorkerCommand, &'static str>)
    ensures
        match arg {
            None => command == Ok::<WorkerCommand, &'static str>(WorkerCommand::RunOnce),
            Some(a) => if a@ == "materialise"@ {
                command == Ok::<WorkerCommand, &'static str>(WorkerCommand::Materialise)
            } else if a@ == "finalise"@ {
                command == Ok::<WorkerCommand, &'static str>(WorkerCommand::Finalise)
            } else if a@ == "ingest"@ {
                command == Ok::<WorkerCommand, &'static str>(WorkerCommand::Ingest)
            } else if a@ == "notify"@ {
                command == Ok::<WorkerCommand, &'static str>(WorkerCommand::Notify)
            } else if a@ == "run-once"@ {
                command == Ok::<WorkerCommand, &'static str>(WorkerCommand::RunOnce)
            } else {
                command matches Err(usage) && usage@ == "usage: tracked-worker [materialise|finalise|ingest|notify|run-once]"@
            },
        },
{
    let a = match arg {
        Some(a) => a,
        None => {
            return Ok(WorkerCommand::RunOnce);
        },
    };
    let chars = chars_of(a);
    let s = chars.as_slice();
    assert(chars@.subrange(0, chars@.len() as int) == chars@);
    if range_equals(s, 0, s.len(), "materialise") {
        Ok(WorkerCommand::Materialise)
    } else if range_equals(s, 0, s.len(), "finalise") {
        Ok(WorkerCommand::Finalise)
    } else if range_equals(s, 0, s.len(), "ingest") {
        Ok(WorkerCommand::Ingest)
    } else if range_equals(s, 0, s.len(), "notify") {
        Ok(WorkerCommand::Notify)
    } else if range_equals(s, 0, s.len(), "run-once") {
        Ok(WorkerCommand::RunOnce)
    } else {
        Err("usage: tracked-worker [materialise|finalise|ingest|notify|run-once]")
    }
}

} // verus!
