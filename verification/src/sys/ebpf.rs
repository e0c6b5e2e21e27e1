//! The handle of the in-kernel socket event tracer. Attaching to the kernel
//! is the caller's work; the handle records what it gave: tracing is active
//! exactly when the last attach succeeded.
use vstd::prelude::*;
use crate::model::Entry;

verus! {

/// eBPF Socket Event Tracing Engine.
///
/// The state of an in-kernel event stream for tracing
/// `inet_csk_listen_start` (new TCP listeners) and `inet_release` /
/// `tcp_close` (socket teardown).
pub struct EbpfSocketEngine {
    active: bool,
}

impl EbpfSocketEngine {
    /// Creates a new eBPF socket tracing engine handle, not yet attached.
    pub fn new() -> (r: Self)
        ensures
            !r.spec_active(),
    {
        EbpfSocketEngine { active: false }
    }

    /// Whether tracing is active.
    pub closed spec fn spec_active(self) -> bool {
        self.active
    }

    /// Checks if kernel eBPF socket tracing is currently active.
    pub fn is_active(&self) -> (r: bool)
        ensures
            r == self.spec_active(),
    {
        self.active
    }

    /// Attaches to kernel tracepoints / kprobes if permitted: takes what the
    /// attach that the caller made gave (`outcome`, refused without CAP_BPF
    /// or root) and hands it back; tracing is active exactly when it
    /// succeeded.
    pub fn try_attach(&mut self, outcome: Result<(), String>) -> (r: Result<(), String>)
        ensures
            r == outcome,
            final(self).spec_active() == (outcome is Ok),
    {
        self.active = outcome.is_ok();
        outcome
    }

    /// Processes buffered eBPF ring buffer events: the handle buffers none,
    /// so there are none to hand out.
    pub fn drain_events(&self) -> (r: Vec<Entry>)
        ensures
            r@.len() == 0,
    {
        Vec::new()
    }
}

impl Default for EbpfSocketEngine {
    fn default() -> (r: Self)
        ensures
            !r.spec_active(),
    {
        Self::new()
    }
}

} // verus!
