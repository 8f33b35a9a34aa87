//! The deadline governor: an absolute expiry on the caller's clock, and the
//! moment at which the timeout of the transport was last refreshed.
//!
//! The clock is the caller's: any count of milliseconds that never runs
//! backwards. Before every blocking call the caller asks
//! [`Deadline::check`] what to do.

use vstd::prelude::*;
use crate::error::{Error, IoKind};
use crate::stream::is_io;

verus! {

/// How long a refreshed timeout is left alone, in milliseconds.
pub const DEBOUNCE_MS: u64 = 250;

/// A deadline: when it expires, and when the timeout was last refreshed.
#[derive(Debug, Clone, Copy, PartialEq, Eq, Structural)]
pub struct Deadline {
    /// The moment of expiry.
    pub expiry: u64,
    /// The moment of the last refresh.
    pub last_refresh: u64,
}

/// What the caller has to do before a blocking call.
#[derive(Debug, Clone, Copy, PartialEq, Eq, Structural)]
pub enum Governed {
    /// Go ahead; the timeout of the transport stands as it is.
    Proceed,
    /// Set the timeout of the transport to this many milliseconds, then go
    /// ahead.
    Refresh(u64),
}

impl Deadline {
    /// The deadline that expires `seconds` after `now`. The sum is left out
    /// where the clock cannot hold it.
    pub fn with_deadline(seconds: u64, now: u64) -> (d: Deadline)
        requires
            now + seconds * 1000 <= u64::MAX,
        ensures
            d.expiry == now + seconds * 1000,
            d.last_refresh == now,
    {
        Deadline { expiry: now + seconds * 1000, last_refresh: now }
    }

    /// Whether the timeout is due for a refresh at `now`.
    pub open spec fn due(&self, now: u64) -> bool {
        now >= self.last_refresh && now - self.last_refresh >= DEBOUNCE_MS
    }

    /// Whether the deadline has passed at `now`.
    pub open spec fn expired(&self, now: u64) -> bool {
        self.expiry <= now
    }

    /// Decides what to do before a blocking call at `now`. Within the
    /// debounce time of the last refresh the call goes ahead. After it, a
    /// deadline that has passed fails the call as timed out, and one that has
    /// not gives the time that is left as the new timeout and notes the
    /// refresh.
    pub fn check(&mut self, now: u64) -> (r: Result<Governed, Error>)
        ensures
            final(self).expiry == old(self).expiry,
            !old(self).due(now) ==> r == Ok::<Governed, Error>(Governed::Proceed) && *final(self)
                == *old(self),
            old(self).due(now) && old(self).expired(now) ==> (r matches Err(e) && is_io(
                e,
                IoKind::TimedOut,
            )) && *final(self) == *old(self),
            old(self).due(now) && !old(self).expired(now) ==> r == Ok::<Governed, Error>(
                Governed::Refresh((old(self).expiry - now) as u64),
            ) && final(self).last_refresh == now,
    {
        if now >= self.last_refresh && now - self.last_refresh >= DEBOUNCE_MS {
            if self.expiry <= now {
                return Err(Error::io(IoKind::TimedOut, "Connection timed out"));
            }
            self.last_refresh = now;
            Ok(Governed::Refresh(self.expiry - now))
        } else {
            Ok(Governed::Proceed)
        }
    }
}

/// What the governor decides for an optional deadline: without one every
/// call goes ahead.
pub open spec fn governed(deadline: Option<Deadline>, now: u64) -> Option<Governed> {
    match deadline {
        None => Some(Governed::Proceed),
        Some(d) => if !d.due(now) {
            Some(Governed::Proceed)
        } else if d.expired(now) {
            None
        } else {
            Some(Governed::Refresh((d.expiry - now) as u64))
        },
    }
}

/// The deadline after the governor has decided at `now`: a refresh is noted.
pub open spec fn refreshed(deadline: Option<Deadline>, now: u64) -> Option<Deadline> {
    match deadline {
        Some(d) if d.due(now) && !d.expired(now) => Some(
            Deadline { expiry: d.expiry, last_refresh: now },
        ),
        other => other,
    }
}

/// No timeout that the governor hands out reaches beyond the expiry: a
/// refreshed timeout ends exactly there, a call that is failed has reached
/// it, and a call that goes ahead under a deadline is within the debounce
/// time of the last refresh.
pub proof fn lemma_governed_by_expiry(d: Deadline, now: u64)
    ensures
        match governed(Some(d), now) {
            Some(Governed::Refresh(left)) => now + left == d.expiry && left > 0,
            Some(Governed::Proceed) => now < d.last_refresh || now - d.last_refresh < DEBOUNCE_MS,
            None => now >= d.expiry && now - d.last_refresh >= DEBOUNCE_MS,
        },
{
}

/// Applies the governor where there is a deadline; `None` from
/// [`governed`] is the failure of a call as timed out.
pub fn govern(deadline: &mut Option<Deadline>, now: u64) -> (r: Result<Governed, Error>)
    ensures
        *final(deadline) == refreshed(*old(deadline), now),
        match governed(*old(deadline), now) {
            Some(g) => r == Ok::<Governed, Error>(g),
            None => r matches Err(e) && is_io(e, IoKind::TimedOut),
        },
{
    match deadline {
        None => Ok(Governed::Proceed),
        Some(d) => d.check(now),
    }
}

/// Whether a failed read is the way a secured channel reports that the peer
/// has closed it: the connection was aborted, and the description names the
/// close notification.
pub open spec fn close_notify(err: crate::error::IoError) -> bool {
    err.kind == IoKind::ConnectionAborted && exists|i: int|
        #[trigger] occurs(err.message@, "CloseNotify"@, i)
}

/// `word` stands in `text` at the index `at`.
pub open spec fn occurs(text: Seq<char>, word: Seq<char>, at: int) -> bool {
    0 <= at && at + word.len() <= text.len() && text.subrange(at, at + word.len()) == word
}

/// Whether a failed read is the peer's close of a secured channel. A read
/// that fails so has read the end of the input.
pub fn is_close_notify(err: &crate::error::IoError) -> (r: bool)
    ensures
        r == close_notify(*err),
{
    if err.kind != IoKind::ConnectionAborted {
        return false;
    }
    let text = crate::text::chars_of(err.message.as_str());
    let word = crate::text::chars_of("CloseNotify");
    proof {
        reveal_strlit("CloseNotify");
    }
    let s = text.as_slice();
    let w = word.as_slice();
    if s.len() < 11 {
        return false;
    }
    let mut i: usize = 0;
    while i <= s.len() - 11
        invariant
            err.kind == IoKind::ConnectionAborted,
            w@ == "CloseNotify"@,
            w@.len() == 11,
            s@ == err.message@,
            s@.len() >= 11,
            0 <= i <= s@.len() - 11 + 1,
            forall|j: int| 0 <= j < i ==> !#[trigger] occurs(s@, w@, j),
        decreases s.len() - i,
    {
        let piece = vstd::slice::slice_subrange(s, i, i + 11);
        if crate::text::has_prefix(piece, w) {
            assert(piece@.take(11) =~= piece@);
            assert(occurs(err.message@, "CloseNotify"@, i as int));
            return true;
        }
        assert(piece@.take(11) =~= piece@);
        i += 1;
    }
    false
}

} // verus!
