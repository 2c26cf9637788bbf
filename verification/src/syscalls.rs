//! The values a system call hands back to its caller.
use vstd::prelude::*;

verus! {

/// The word a system call returns in the caller's return register.
#[derive(Debug, Clone, Copy, PartialEq, Eq, Structural)]
pub struct SyscallReturnValue(pub u64);

/// A value a system call can return.
pub trait SyscallReturnable: Sized {
    spec fn spec_return_value(self) -> u64;

    fn into_return_value(self) -> (r: SyscallReturnValue)
        ensures
            r.0 == self.spec_return_value(),
    ;
}

impl SyscallReturnable for () {
    /// A call with nothing to return returns 0.
    open spec fn spec_return_value(self) -> u64 {
        0
    }

    fn into_return_value(self) -> (r: SyscallReturnValue) {
        SyscallReturnValue(0)
    }
}

impl SyscallReturnable for u64 {
    open spec fn spec_return_value(self) -> u64 {
        self
    }

    fn into_return_value(self) -> (r: SyscallReturnValue) {
        SyscallReturnValue(self)
    }
}

/// What a handled system call asks for: return a value to the calling task,
/// or switch to another task. The task frames travel beside it.
pub enum SyscallIntent<T> {
    Return(T),
    SwitchTo,
}

impl<T: SyscallReturnable> SyscallIntent<T> {
    /// The same intent with its value turned into the caller's return word.
    pub fn into_return_intent(self) -> (r: SyscallIntent<SyscallReturnValue>)
        ensures
            match self {
                SyscallIntent::Return(v) => r == SyscallIntent::Return(
                    SyscallReturnValue(v.spec_return_value()),
                ),
                SyscallIntent::SwitchTo => r == SyscallIntent::<SyscallReturnValue>::SwitchTo,
            },
    {
        match self {
            SyscallIntent::Return(v) => SyscallIntent::Return(v.into_return_value()),
            SyscallIntent::SwitchTo => SyscallIntent::SwitchTo,
        }
    }
}

/// How the trap handler resumes after a system call.
#[derive(Debug, Clone, Copy, PartialEq, Eq, Structural)]
pub enum SyscallResume {
    /// Return to the caller with this value in its return register.
    ReturnValue(u64),
    /// Return to the caller with this error code in its return register.
    ReturnError(u64),
    /// Run the task the handler switched to.
    SwitchTask,
}

/// Resuming after a handler's outcome: a value goes back to the caller, an
/// error code goes back to the caller as an error, and a switch runs the
/// other task.
pub open spec fn spec_syscall_resume(outcome: Result<SyscallIntent<SyscallReturnValue>, u64>) -> SyscallResume {
    match outcome {
        Ok(SyscallIntent::Return(v)) => SyscallResume::ReturnValue(v.0),
        Ok(SyscallIntent::SwitchTo) => SyscallResume::SwitchTask,
        Err(code) => SyscallResume::ReturnError(code),
    }
}

/// Decides how the trap handler resumes after the system call handler's outcome.
pub fn syscall_resume(outcome: Result<SyscallIntent<SyscallReturnValue>, u64>) -> (r: SyscallResume)
    ensures
        r == spec_syscall_resume(outcome),
{
    match outcome {
        Ok(SyscallIntent::Return(v)) => SyscallResume::ReturnValue(v.0),
        Ok(SyscallIntent::SwitchTo) => SyscallResume::SwitchTask,
        Err(code) => SyscallResume::ReturnError(code),
    }
}

/// What the caller finds in its return register: the value on success,
/// otherwise the error's code.
pub open spec fn spec_syscall_register(result: Result<SyscallReturnValue, u64>) -> Result<u64, u64> {
    match result {
        Ok(v) => Ok(v.0),
        Err(code) => Err(code),
    }
}

/// Turns a system call's outcome into what is stored for the caller.
pub fn syscall_register(result: Result<SyscallReturnValue, u64>) -> (r: Result<u64, u64>)
    ensures
        r == spec_syscall_register(result),
{
    match result {
        Ok(v) => Ok(v.0),
        Err(code) => Err(code),
    }
}

/// File descriptors a process may write to: standard output and standard error.
pub open spec fn spec_is_writable_fd(fd: i32) -> bool {
    fd == 1 || fd == 2
}

/// Whether the write system call accepts `fd`; any other descriptor gets `EBADF`.
pub fn is_writable_fd(fd: i32) -> (r: bool)
    ensures
        r == spec_is_writable_fd(fd),
{
    fd == 1 || fd == 2
}

} // verus!
