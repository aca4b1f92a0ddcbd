//! Which log sinks the logging facade writes to.
//!
//! The formatting of messages and the sinks themselves belong to the program
//! around the library; here is the facade's choice of sinks.

use vstd::prelude::*;

verus! {

/// The Debug Connection (debugcon) device, which is typically reachable via
/// I/O port [`DebugCon::PORT`] on x86 in virtual machines.
#[derive(Clone, Copy, Debug, PartialEq, Eq, Structural)]
pub struct DebugCon;

impl DebugCon {
    /// The typical port where we find this device in QEMU or Cloud Hypervisor.
    pub const PORT: u16 = 0xe9;
}

/// Log sink that writes each message as one line to the [`DebugCon`] device.
#[derive(Clone, Copy, Debug, PartialEq, Eq, Structural)]
pub struct DebugconLogger;

/// The sinks of the logging facade: the debugcon device and an optional
/// standard-output logger `S` that needs memory allocation.
#[derive(Debug)]
pub struct LoggerFacadeInner<S> {
    debugcon: Option<DebugconLogger>,
    stdout_logger: Option<S>,
}

impl<S> LoggerFacadeInner<S> {
    pub closed spec fn spec_debugcon(&self) -> Option<DebugconLogger> {
        self.debugcon
    }

    pub closed spec fn spec_stdout_logger(&self) -> Option<S> {
        self.stdout_logger
    }

    /// A facade without any sink.
    pub fn new() -> (r: Self)
        ensures
            r.spec_debugcon() is None,
            r.spec_stdout_logger() is None,
    {
        LoggerFacadeInner { debugcon: None, stdout_logger: None }
    }

    /// Adds the debugcon sink.
    pub fn set_debugcon(&mut self, debugcon: DebugconLogger)
        ensures
            final(self).spec_debugcon() == Some(debugcon),
            final(self).spec_stdout_logger() == old(self).spec_stdout_logger(),
    {
        self.debugcon = Some(debugcon);
    }

    /// Adds (or replaces) the standard-output sink.
    pub fn set_stdout_logger(&mut self, stdout_logger: S)
        ensures
            final(self).spec_stdout_logger() == Some(stdout_logger),
            final(self).spec_debugcon() == old(self).spec_debugcon(),
    {
        self.stdout_logger = Some(stdout_logger);
    }

    /// The sinks to write to, in this order: standard output, debugcon.
    pub fn loggers(&self) -> (r: (Option<&S>, Option<&DebugconLogger>))
        ensures
            r.0 is Some <==> self.spec_stdout_logger() is Some,
            r.0 matches Some(s) ==> self.spec_stdout_logger() == Some(*s),
            r.1 == match self.spec_debugcon() {
                Some(d) => Some(&d),
                None => None::<&DebugconLogger>,
            },
    {
        (self.stdout_logger.as_ref(), self.debugcon.as_ref())
    }
}

} // verus!
