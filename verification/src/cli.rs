//! Argument handling of the `fadewire` control CLI.

use vstd::prelude::*;

verus! {

/// The two arguments after the subcommand, or the usage message
/// `usage: fadewire <usage>` when either is missing.
pub fn two_args(args: &[String], usage: &str) -> (r: Result<(String, String), String>)
    ensures
        match r {
            Ok((a, b)) => args@.len() >= 3 && a@ == args@[1]@ && b@ == args@[2]@,
            Err(msg) => args@.len() < 3 && msg@ == "usage: fadewire "@ + usage@,
        },
{
    if args.len() >= 3 {
        Ok((args[1].clone(), args[2].clone()))
    } else {
        let mut msg = String::from_str("usage: fadewire ");
        msg.append(usage);
        Err(msg)
    }
}

} // verus!
