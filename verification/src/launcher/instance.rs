//! One launcher at a time: a second one ends the first and itself.

use vstd::prelude::*;

verus! {

/// The socket that the running launcher listens on.
pub fn socket_path(runtime_dir: Option<&str>) -> (r: String)
    ensures
        r@ == (match runtime_dir {
            Some(d) => d@,
            None => "/tmp"@,
        }) + "/ordinary-launcher.sock"@,
{
    let mut r = match runtime_dir {
        Some(d) => d.to_owned(),
        None => "/tmp".to_owned(),
    };
    r.append("/ordinary-launcher.sock");
    r
}

/// How an attempt to listen on the socket, or to reach who listens on it, went.
#[derive(Clone, Copy, Debug, PartialEq, Eq, Structural)]
pub enum Attempt {
    /// It succeeded.
    Done,
    /// The address is in use.
    InUse,
    /// It failed for another reason.
    Failed,
}

/// Where the launcher stands with the socket.
#[derive(Clone, Copy, Debug, PartialEq, Eq, Structural)]
pub enum Instance {
    /// It is about to listen.
    Listening,
    /// The address is in use, and it is about to connect to who uses it.
    Connecting,
    /// Nobody answered. It is about to remove the socket and listen again.
    Retrying,
    /// It listens: it is the running launcher.
    Running,
    /// It ends.
    Ended,
}

/// Where the launcher stands after an attempt.
pub open spec fn after_attempt(instance: Instance, attempt: Attempt) -> Instance {
    match instance {
        Instance::Listening => match attempt {
            Attempt::Done => Instance::Running,
            Attempt::InUse => Instance::Connecting,
            Attempt::Failed => Instance::Ended,
        },
        Instance::Connecting => if attempt == Attempt::Done {
            Instance::Ended
        } else {
            Instance::Retrying
        },
        Instance::Retrying => if attempt == Attempt::Done {
            Instance::Running
        } else {
            Instance::Ended
        },
        Instance::Running => Instance::Running,
        Instance::Ended => Instance::Ended,
    }
}

/// Where the launcher stands after an attempt.
pub fn next_instance(instance: Instance, attempt: Attempt) -> (r: Instance)
    ensures
        r == after_attempt(instance, attempt),
{
    match instance {
        Instance::Listening => match attempt {
            Attempt::Done => Instance::Running,
            Attempt::InUse => Instance::Connecting,
            Attempt::Failed => Instance::Ended,
        },
        Instance::Connecting => if attempt == Attempt::Done {
            Instance::Ended
        } else {
            Instance::Retrying
        },
        Instance::Retrying => if attempt == Attempt::Done {
            Instance::Running
        } else {
            Instance::Ended
        },
        Instance::Running => Instance::Running,
        Instance::Ended => Instance::Ended,
    }
}

/// A launcher that finds a running one ends, and one that finds none at the address takes its place
/// if it can listen there. After three attempts it runs or has ended.
pub proof fn law_one_launcher_runs(first: Attempt, second: Attempt, third: Attempt)
    ensures
        ({
            let a = after_attempt(Instance::Listening, first);
            let b = after_attempt(a, second);
            let c = after_attempt(b, third);
            &&& c == Instance::Running || c == Instance::Ended
            &&& first == Attempt::InUse && second == Attempt::Done ==> c == Instance::Ended
            &&& c == Instance::Running <==> first == Attempt::Done || (first == Attempt::InUse
                && second != Attempt::Done && third == Attempt::Done)
            &&& first == Attempt::Done ==> a == Instance::Running
            &&& first == Attempt::Failed ==> a == Instance::Ended
            &&& first == Attempt::InUse ==> a == Instance::Connecting
            &&& first == Attempt::InUse && second != Attempt::Done ==> b == Instance::Retrying
        }),
{
}

} // verus!
