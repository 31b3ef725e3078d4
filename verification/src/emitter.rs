//! Rendering of the generated daemon configuration text.
//!
//! The emitted file holds, for each service in definition order, a named
//! boolean function whose body returns `true` exactly when the service is
//! currently `Success`.  Blocks are separated by blank lines.  Writing the
//! text to disk is left to the caller; the rendering itself is pure.

use vstd::prelude::*;

use crate::service::{ServiceDefinition, ServiceState};

verus! {

/// The text of one generated function block.
pub open spec fn spec_block_text(function_name: Seq<char>, up: bool, with_return_type: bool) -> Seq<
    char,
> {
    "\nfunction "@ + function_name + (if with_return_type {
        "() -> bool\n"@
    } else {
        "()\n"@
    }) + "{\n    return "@ + (if up {
        "true"@
    } else {
        "false"@
    }) + ";\n}\n"@
}

/// The text of the whole generated file: one block per service, in
/// definition order, blocks joined by a newline (each block already starts
/// and ends with one, so neighbouring blocks are separated by a blank line).
pub open spec fn spec_config_text(
    defs: Seq<ServiceDefinition>,
    states: Seq<ServiceState>,
    with_return_type: bool,
) -> Seq<char>
    recommends
        defs.len() == states.len(),
    decreases defs.len(),
{
    if defs.len() == 0 {
        Seq::<char>::empty()
    } else {
        spec_config_text(defs.drop_last(), states.drop_last(), with_return_type) + (if defs.len()
            > 1 {
            "\n"@
        } else {
            Seq::<char>::empty()
        }) + spec_block_text(defs.last().function_name@, states.last() is Success, with_return_type)
    }
}

/// Render the generated daemon configuration for the given definitions and
/// their current states.
///
/// This is the pure part of regenerating the output file; the caller
/// overwrites the target path with the returned text.
pub fn bird_functions_text(
    defs: &Vec<ServiceDefinition>,
    states: &Vec<ServiceState>,
    with_return_type: bool,
) -> (r: String)
    requires
        defs@.len() == states@.len(),
    ensures
        r@ == spec_config_text(defs@, states@, with_return_type),
{
    let mut out = String::new();
    let mut i: usize = 0;
    while i < defs.len()
        invariant
            i <= defs@.len(),
            defs@.len() == states@.len(),
            out@ == spec_config_text(defs@.take(i as int), states@.take(i as int), with_return_type),
        decreases defs@.len() - i,
    {
        if i > 0 {
            out.append("\n");
        }
        out.append("\nfunction ");
        out.append(defs[i].function_name.as_str());
        if with_return_type {
            out.append("() -> bool\n");
        } else {
            out.append("()\n");
        }
        out.append("{\n    return ");
        let up = match states[i] {
            ServiceState::Success { .. } => true,
            ServiceState::Failure { .. } => false,
        };
        if up {
            out.append("true");
        } else {
            out.append("false");
        }
        out.append(";\n}\n");
        proof {
            assert(defs@.take(i + 1).drop_last() =~= defs@.take(i as int));
            assert(states@.take(i + 1).drop_last() =~= states@.take(i as int));
            assert(defs@.take(i + 1).last() == defs@[i as int]);
            assert(states@.take(i + 1).last() == states@[i as int]);
            assert(out@ =~= spec_config_text(
                defs@.take(i + 1),
                states@.take(i + 1),
                with_return_type,
            ));
        }
        i = i + 1;
    }
    proof {
        assert(defs@.take(defs@.len() as int) =~= defs@);
        assert(states@.take(states@.len() as int) =~= states@);
    }
    out
}

} // verus!
