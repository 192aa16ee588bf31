//! The integer side of backpressure
//!
//! A gauge of the bytes buffered for sending, and whether backpressure is
//! on. Backpressure turns on when the buffered bytes rise above the
//! activation limit and off again only when they fall to the release limit
//! or below; in between it stays as it was. The gauge updates the state
//! each time the buffered bytes change. The limits are fractions of the
//! buffer size, which the caller computes.
use vstd::prelude::*;

verus! {

/// Bytes buffered for sending, the two limits, and whether backpressure is on.
#[derive(Debug)]
pub struct BufferGauge {
    current_size: usize,
    activate_at: usize,
    release_at: usize,
    active: bool,
}

/// Whether backpressure is on once `size` bytes are buffered, given whether
/// it was on before.
pub open spec fn active_after(was_active: bool, size: nat, activate_at: nat, release_at: nat) -> bool {
    if size > activate_at {
        true
    } else if size <= release_at {
        false
    } else {
        was_active
    }
}

impl BufferGauge {
    /// The bytes buffered.
    pub closed spec fn spec_size(&self) -> nat {
        self.current_size as nat
    }

    /// The activation limit: above it backpressure is on.
    pub closed spec fn spec_activate_at(&self) -> nat {
        self.activate_at as nat
    }

    /// The release limit: at it or below backpressure is off.
    pub closed spec fn spec_release_at(&self) -> nat {
        self.release_at as nat
    }

    /// Whether backpressure is on.
    pub closed spec fn spec_active(&self) -> bool {
        self.active
    }

    /// The state agrees with the limits: on above the activation limit, else
    /// off at the release limit or below.
    pub open spec fn wf(&self) -> bool {
        self.spec_active() == active_after(
            self.spec_active(),
            self.spec_size(),
            self.spec_activate_at(),
            self.spec_release_at(),
        )
    }

    /// An empty gauge with the given limits, with backpressure off.
    pub fn new(activate_at: usize, release_at: usize) -> (r: Self)
        ensures
            r.spec_size() == 0,
            r.spec_activate_at() == activate_at,
            r.spec_release_at() == release_at,
            !r.spec_active(),
            r.wf(),
    {
        BufferGauge { current_size: 0, activate_at, release_at, active: false }
    }

    /// Move to `size` buffered bytes and update the state against the limits.
    fn set_size(&mut self, size: usize)
        ensures
            final(self).spec_size() == size,
            final(self).spec_activate_at() == old(self).spec_activate_at(),
            final(self).spec_release_at() == old(self).spec_release_at(),
            final(self).spec_active() == active_after(
                old(self).spec_active(),
                size as nat,
                old(self).spec_activate_at(),
                old(self).spec_release_at(),
            ),
            final(self).wf(),
    {
        self.current_size = size;
        if size > self.activate_at {
            self.active = true;
        } else if size <= self.release_at {
            self.active = false;
        }
    }

    /// Record `size` bytes sent into the buffer; backpressure turns on if the
    /// buffered bytes rise above the activation limit.
    pub fn record_send(&mut self, size: usize)
        requires
            old(self).spec_size() + size <= usize::MAX,
        ensures
            final(self).spec_size() == old(self).spec_size() + size,
            final(self).spec_activate_at() == old(self).spec_activate_at(),
            final(self).spec_release_at() == old(self).spec_release_at(),
            final(self).spec_active() == active_after(
                old(self).spec_active(),
                final(self).spec_size(),
                old(self).spec_activate_at(),
                old(self).spec_release_at(),
            ),
            final(self).wf(),
    {
        let next = self.current_size + size;
        self.set_size(next);
    }

    /// Record `size` bytes taken out of the buffer (not below empty);
    /// backpressure turns off if the buffered bytes fall to the release limit.
    pub fn record_recv(&mut self, size: usize)
        ensures
            final(self).spec_size() == (if old(self).spec_size() >= size {
                (old(self).spec_size() - size) as nat
            } else {
                0
            }),
            final(self).spec_activate_at() == old(self).spec_activate_at(),
            final(self).spec_release_at() == old(self).spec_release_at(),
            final(self).spec_active() == active_after(
                old(self).spec_active(),
                final(self).spec_size(),
                old(self).spec_activate_at(),
                old(self).spec_release_at(),
            ),
            final(self).wf(),
    {
        let next = self.current_size.saturating_sub(size);
        self.set_size(next);
    }

    /// The bytes buffered.
    pub fn current_size(&self) -> (r: usize)
        ensures
            r == self.spec_size(),
    {
        self.current_size
    }

    /// Whether the buffer holds `max_buffer_size` bytes or more.
    pub fn is_full(&self, max_buffer_size: usize) -> (r: bool)
        ensures
            r == (self.spec_size() >= max_buffer_size),
    {
        self.current_size >= max_buffer_size
    }

    /// Whether backpressure is on.
    pub fn is_active(&self) -> (r: bool)
        ensures
            r == self.spec_active(),
    {
        self.active
    }
}

/// Hysteresis: once on, backpressure stays on until the buffered bytes fall
/// to the release limit; once off, it stays off until they rise above the
/// activation limit.
pub proof fn law_backpressure_hysteresis(was_active: bool, size: nat, activate_at: nat, release_at: nat)
    requires
        release_at <= activate_at,
    ensures
        was_active && size > release_at ==> active_after(was_active, size, activate_at, release_at),
        !was_active && size <= activate_at ==> !active_after(was_active, size, activate_at, release_at),
        size > activate_at ==> active_after(was_active, size, activate_at, release_at),
        size <= release_at ==> !active_after(was_active, size, activate_at, release_at),
{
}

} // verus!
