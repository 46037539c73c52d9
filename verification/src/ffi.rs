//! The answers that the exported C and JNI entry points give: status
//! codes, and the steps of the `ctl` entry point.

use vstd::prelude::*;

use crate::ctl::{KernelOp, op_from_number};
use crate::error::Error;

verus! {

/// A descriptor that the `ctl` entry point looks for in this process.
#[derive(Debug)]
pub enum Resource {
    /// The shared memory descriptor, `[fmac_shm]`.
    Shm,
    /// The control descriptor, `[fmac_ctl]`.
    Ctl,
}

/// What the `ctl` entry point does next.
#[derive(Debug)]
pub enum CtlStep {
    /// Look for this descriptor, then answer with `ctl_status`.
    Acquire(Resource),
    /// Answer with this code.
    Finish(i32),
}

/// The answer of the `ctl` entry point for `op`, given which descriptors
/// are held: -1 when `Authenticate` left no shared memory descriptor or
/// `Ioctl` left no control descriptor, 0 otherwise.
pub open spec fn spec_ctl_status(op: KernelOp, shm_ready: bool, ctl_ready: bool) -> i32 {
    if (op == KernelOp::Authenticate && !shm_ready) || (op == KernelOp::Ioctl && !ctl_ready) {
        -1i32
    } else {
        0i32
    }
}

/// The step of the `ctl` entry point once the kernel has answered `op`:
/// a failed operation answers -1; a successful `Authenticate` without the
/// shared memory descriptor, or `Ioctl` without the control descriptor,
/// looks for it; anything else answers at once.
pub open spec fn spec_ctl_step(op: KernelOp, invoke_ok: bool, shm_ready: bool, ctl_ready: bool) -> CtlStep {
    if !invoke_ok {
        CtlStep::Finish(-1i32)
    } else if op == KernelOp::Authenticate && !shm_ready {
        CtlStep::Acquire(Resource::Shm)
    } else if op == KernelOp::Ioctl && !ctl_ready {
        CtlStep::Acquire(Resource::Ctl)
    } else {
        CtlStep::Finish(spec_ctl_status(op, shm_ready, ctl_ready))
    }
}

/// The answer of the `ctl` entry point for `op`, given which descriptors
/// are held (`spec_ctl_status`).
pub fn ctl_status(op: KernelOp, shm_ready: bool, ctl_ready: bool) -> (r: i32)
    ensures
        r == spec_ctl_status(op, shm_ready, ctl_ready),
{
    if op == KernelOp::Authenticate && !shm_ready {
        return -1;
    }
    if op == KernelOp::Ioctl && !ctl_ready {
        return -1;
    }
    0
}

/// The step of the `ctl` entry point once the kernel has answered `op`
/// (`spec_ctl_step`).
pub fn ctl_step(op: KernelOp, invoke_ok: bool, shm_ready: bool, ctl_ready: bool) -> (s: CtlStep)
    ensures
        s == spec_ctl_step(op, invoke_ok, shm_ready, ctl_ready),
{
    if !invoke_ok {
        return CtlStep::Finish(-1);
    }
    match op {
        KernelOp::Authenticate => if !shm_ready {
            return CtlStep::Acquire(Resource::Shm);
        },
        KernelOp::Ioctl => if !ctl_ready {
            return CtlStep::Acquire(Resource::Ctl);
        },
        KernelOp::GetRoot => {},
    }
    CtlStep::Finish(ctl_status(op, shm_ready, ctl_ready))
}

/// What a `ctl` entry point (the C `ncore_ctl` and the JNI `ctl` alike)
/// answers for `value`, when `prctl` succeeded (`invoke_ok`) or not, the
/// descriptors held before the call are `shm_before` and `ctl_before`,
/// and those held after any search for a missing one are `shm_after` and
/// `ctl_after`: -1 for a value other than 1, 2 and 3 or a failed `prctl`;
/// for `Authenticate` (1), 0 exactly when the shared memory descriptor is
/// held afterwards; for `Ioctl` (3), 0 exactly when the control descriptor
/// is; 0 for `GetRoot` (2).
pub open spec fn ctl_entry_answer(
    value: int,
    invoke_ok: bool,
    shm_before: bool,
    ctl_before: bool,
    shm_after: bool,
    ctl_after: bool,
) -> i32 {
    if !(1 <= value <= 3) || !invoke_ok {
        -1i32
    } else if value == 1 {
        if shm_before || shm_after {
            0i32
        } else {
            -1i32
        }
    } else if value == 3 {
        if ctl_before || ctl_after {
            0i32
        } else {
            -1i32
        }
    } else {
        0i32
    }
}

/// The descriptor that a `ctl` entry point searches for: the shared memory
/// descriptor after a successful `Authenticate` when none is held, the
/// control descriptor after a successful `Ioctl` when none is held.
pub open spec fn ctl_entry_search(value: int, invoke_ok: bool, shm_before: bool, ctl_before: bool) -> Option<Resource> {
    if invoke_ok && value == 1 && !shm_before {
        Some(Resource::Shm)
    } else if invoke_ok && value == 3 && !ctl_before {
        Some(Resource::Ctl)
    } else {
        None
    }
}

/// A `ctl` entry point runs `KernelOp::from_code`, then (for a known
/// operation, after `prctl`) `ctl_step`, then, when the step is a search,
/// `ctl_status` with the descriptors held afterwards.  Whichever entry point
/// runs it, that protocol answers `ctl_entry_answer` and searches for
/// `ctl_entry_search`: the answer depends only on the value, the outcome of
/// `prctl` and the descriptors held, and an unknown value is answered -1
/// before any operation is asked for.
pub proof fn law_ctl_entry(
    value: i32,
    invoke_ok: bool,
    shm_before: bool,
    ctl_before: bool,
    shm_after: bool,
    ctl_after: bool,
)
    ensures
        match op_from_number(value as int) {
            None => ctl_entry_answer(value as int, invoke_ok, shm_before, ctl_before, shm_after, ctl_after)
                == -1i32 && ctl_entry_search(value as int, invoke_ok, shm_before, ctl_before) is None,
            Some(op) => match spec_ctl_step(op, invoke_ok, shm_before, ctl_before) {
                CtlStep::Finish(code) => code == ctl_entry_answer(
                    value as int,
                    invoke_ok,
                    shm_before,
                    ctl_before,
                    shm_after,
                    ctl_after,
                ) && ctl_entry_search(value as int, invoke_ok, shm_before, ctl_before) is None,
                CtlStep::Acquire(r) => spec_ctl_status(op, shm_after, ctl_after)
                    == ctl_entry_answer(
                    value as int,
                    invoke_ok,
                    shm_before,
                    ctl_before,
                    shm_after,
                    ctl_after,
                ) && ctl_entry_search(value as int, invoke_ok, shm_before, ctl_before) == Some(r),
            },
        },
{
}

/// The C status of an operation without a value: 0 on success, -1 on
/// error.
pub fn status_code(ok: bool) -> (r: i32)
    ensures
        r == if ok { 0i32 } else { -1i32 },
{
    if ok {
        0
    } else {
        -1
    }
}

/// The C answer of `hasuid`: 1 when the uid is present, 0 when it is not,
/// -1 on error.
pub fn has_uid_code(r: &Result<bool, Error>) -> (c: i32)
    ensures
        c == match r {
            Ok(true) => 1i32,
            Ok(false) => 0i32,
            Err(_) => -1i32,
        },
{
    match r {
        Ok(true) => 1,
        Ok(false) => 0,
        Err(_) => -1,
    }
}

/// The C answer of `get_cap`: the capabilities, or 0 on error.
pub fn get_cap_code(r: &Result<u64, Error>) -> (c: u64)
    ensures
        c == match r {
            Ok(v) => *v,
            Err(_) => 0u64,
        },
{
    match r {
        Ok(v) => *v,
        Err(_) => 0,
    }
}

} // verus!
