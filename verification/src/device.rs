//! Per-scale device state and the protocol transitions.
//!
//! A `Scale` is the record the engine keeps for one network-attached scale:
//! its address, protocol state, the delete flags and the download cursor.
//! The vendor library reports progress through callbacks on its own
//! threads; each callback becomes one transition method here, returning the
//! action the transport must perform next. Every transition keeps the
//! record well-formed, never moves the cursor backwards, and never takes a
//! completed device back to incomplete — the monotonic-completion law.

use vstd::prelude::*;
use crate::digits::{dec_digits, digit_char};

verus! {

/// Protocol state of one device.
#[derive(Debug, PartialEq, Eq, Structural, Copy, Clone)]
pub enum ProtocolState {
    /// Registered, no connection attempted yet.
    Disconnected,
    /// The connect call was issued; no answer yet.
    Connecting,
    /// The vendor reported the link up; a session chooses its work in the
    /// same breath, moving straight on to deleting or downloading.
    Connected,
    /// The delete-all-items command is outstanding.
    Deleting,
    /// Item downloads are being pushed and acknowledged.
    Downloading,
    /// A vendor call failed for this device; it takes no further part.
    Error,
}

/// What the transport must do after a transition.
#[derive(Debug, PartialEq, Eq, Structural, Copy, Clone)]
pub enum DeviceAction {
    /// Nothing to send.
    Idle,
    /// Send the delete-all-items command.
    SendDeleteAll,
    /// Send the item at this index of the shared catalog.
    SendItem(usize),
    /// Drop the device's connection.
    Disconnect,
}

/// The engine's record of one scale.
#[derive(Debug)]
pub struct Scale {
    /// The device's network address.
    pub ip: String,
    /// The connection index handed to the vendor library.
    pub idx: i16,
    /// Protocol state.
    pub state: ProtocolState,
    /// Whether this session wipes the device before downloading.
    pub should_delete: bool,
    /// Whether the wipe has been acknowledged.
    pub delete_completed: bool,
    /// How many items the device has acknowledged; also the index of the
    /// next item to push. Never decreases within a session.
    pub cursor: usize,
    /// Length of the shared, post-correction item list.
    pub total: usize,
    /// Whether the one completion log line has been emitted.
    pub notified: bool,
}

impl Scale {
    /// The record's invariant: the cursor never passes the catalog, a wipe
    /// is only ever acknowledged when one was requested, and only a device
    /// being wiped sits in the deleting state.
    pub open spec fn wf(self) -> bool {
        &&& self.cursor <= self.total
        &&& (self.delete_completed ==> self.should_delete)
        &&& (self.state == ProtocolState::Deleting ==> self.should_delete)
    }

    /// The completion predicate: every item acknowledged, and the wipe
    /// settled the way it was requested.
    pub open spec fn spec_complete(self) -> bool {
        self.cursor == self.total && self.should_delete == self.delete_completed
    }

    /// A fresh record for `ip`: disconnected, wipe requested but not
    /// acknowledged, nothing downloaded, no catalog attached.
    pub fn new(ip: String) -> (s: Scale)
        ensures
            s.wf(),
            s == (Scale {
                ip: ip,
                idx: -1i16,
                state: ProtocolState::Disconnected,
                should_delete: true,
                delete_completed: false,
                cursor: 0usize,
                total: 0usize,
                notified: false,
            }),
    {
        Scale {
            ip,
            idx: -1,
            state: ProtocolState::Disconnected,
            should_delete: true,
            delete_completed: false,
            cursor: 0,
            total: 0,
            notified: false,
        }
    }

    /// Whether the device has completed this session, per `spec_complete`.
    pub fn complete(&self) -> (b: bool)
        ensures
            b == self.spec_complete(),
    {
        self.cursor == self.total && self.should_delete == self.delete_completed
    }

    /// The connection came up: start the wipe when one was requested, else
    /// begin downloading with the item under the cursor.
    pub fn on_connected(&mut self) -> (a: DeviceAction)
        requires
            old(self).wf(),
        ensures
            final(self).wf(),
            final(self).cursor == old(self).cursor,
            old(self).spec_complete() ==> final(self).spec_complete(),
            (*final(self), a) == connected_next(*old(self)),
    {
        if self.should_delete {
            self.state = ProtocolState::Deleting;
            DeviceAction::SendDeleteAll
        } else {
            self.state = ProtocolState::Downloading;
            if self.cursor < self.total {
                DeviceAction::SendItem(self.cursor)
            } else {
                DeviceAction::Idle
            }
        }
    }

    /// The device acknowledged the delete-all command: record the wipe,
    /// move to downloading and push the item under the cursor. An
    /// acknowledgment outside the deleting state is ignored.
    pub fn on_delete_acked(&mut self) -> (a: DeviceAction)
        requires
            old(self).wf(),
        ensures
            final(self).wf(),
            final(self).cursor == old(self).cursor,
            old(self).spec_complete() ==> final(self).spec_complete(),
            (*final(self), a) == delete_acked_next(*old(self)),
    {
        if self.state == ProtocolState::Deleting {
            self.delete_completed = true;
            self.state = ProtocolState::Downloading;
            if self.cursor < self.total {
                DeviceAction::SendItem(self.cursor)
            } else {
                DeviceAction::Idle
            }
        } else {
            DeviceAction::Idle
        }
    }

    /// The device acknowledged one item: advance the cursor and push the
    /// next item while one remains. Completion is never pushed — it is
    /// computed once the cursor reaches the catalog's end. An
    /// acknowledgment outside the downloading state, or past the end, is
    /// ignored.
    pub fn on_item_acked(&mut self) -> (a: DeviceAction)
        requires
            old(self).wf(),
        ensures
            final(self).wf(),
            final(self).cursor >= old(self).cursor,
            old(self).spec_complete() ==> final(self).spec_complete(),
            (*final(self), a) == item_acked_next(*old(self)),
    {
        if self.state == ProtocolState::Downloading && self.cursor < self.total {
            self.cursor = self.cursor + 1;
            if self.cursor < self.total {
                DeviceAction::SendItem(self.cursor)
            } else {
                DeviceAction::Idle
            }
        } else {
            DeviceAction::Idle
        }
    }

    /// A vendor call failed for this device: mark it errored and have the
    /// transport drop the connection. Sibling devices are unaffected — the
    /// record of one device is all this touches.
    pub fn on_send_failed(&mut self) -> (a: DeviceAction)
        requires
            old(self).wf(),
        ensures
            final(self).wf(),
            final(self).cursor == old(self).cursor,
            old(self).spec_complete() ==> final(self).spec_complete(),
            (*final(self), a) == send_failed_next(*old(self)),
    {
        self.state = ProtocolState::Error;
        DeviceAction::Disconnect
    }

    /// The device's status line: `"<address> [complete]"`,
    /// `"<address> [deleting]"`, or the percentage of items acknowledged
    /// with two decimals in a seven-character field.
    pub fn status_str(&self) -> (s: String)
        requires
            self.wf(),
        ensures
            s@ == status_line(*self),
    {
        let mut out = String::new();
        out.append(self.ip.as_str());
        if self.complete() {
            out.append(" [complete]");
        } else if self.should_delete && !self.delete_completed {
            out.append(" [deleting]");
        } else {
            assert(self.total > 0);
            let bp128: u128 = (self.cursor as u128) * 10000 / (self.total as u128);
            proof {
                vstd::arithmetic::div_mod::lemma_div_is_ordered(
                    self.cursor as int * 10000,
                    self.total as int * 10000,
                    self.total as int,
                );
                vstd::arithmetic::div_mod::lemma_div_multiples_vanish(
                    10000int,
                    self.total as int,
                );
            }
            assert(bp128 <= 10000);
            let bp: u32 = bp128 as u32;
            assert(bp == percent_bp(*self));
            out.append(" [");
            append_pct(&mut out, bp);
            out.append("%]");
        }
        out
    }
}

/// The state and action after the vendor reports the connection up: start
/// the wipe when one was requested, else begin downloading at the cursor.
pub open spec fn connected_next(s: Scale) -> (Scale, DeviceAction) {
    if s.should_delete {
        (Scale { state: ProtocolState::Deleting, ..s }, DeviceAction::SendDeleteAll)
    } else {
        (
            Scale { state: ProtocolState::Downloading, ..s },
            if s.cursor < s.total {
                DeviceAction::SendItem(s.cursor)
            } else {
                DeviceAction::Idle
            },
        )
    }
}

/// The state and action after a delete-all acknowledgment: record the wipe
/// and begin downloading; ignored outside the deleting state.
pub open spec fn delete_acked_next(s: Scale) -> (Scale, DeviceAction) {
    if s.state == ProtocolState::Deleting {
        (
            Scale { state: ProtocolState::Downloading, delete_completed: true, ..s },
            if s.cursor < s.total {
                DeviceAction::SendItem(s.cursor)
            } else {
                DeviceAction::Idle
            },
        )
    } else {
        (s, DeviceAction::Idle)
    }
}

/// The state and action after an item acknowledgment: advance the cursor
/// and push the next item while one remains; ignored outside the
/// downloading state or past the catalog's end.
pub open spec fn item_acked_next(s: Scale) -> (Scale, DeviceAction) {
    if s.state == ProtocolState::Downloading && s.cursor < s.total {
        (
            Scale { cursor: (s.cursor + 1) as usize, ..s },
            if s.cursor + 1 < s.total {
                DeviceAction::SendItem((s.cursor + 1) as usize)
            } else {
                DeviceAction::Idle
            },
        )
    } else {
        (s, DeviceAction::Idle)
    }
}

/// The state and action after a failed vendor call: the device is errored
/// and its connection dropped.
pub open spec fn send_failed_next(s: Scale) -> (Scale, DeviceAction) {
    (Scale { state: ProtocolState::Error, ..s }, DeviceAction::Disconnect)
}

/// *Monotonic completion.* Whatever event a session delivers to a
/// well-formed device record, its cursor never decreases, and once the
/// completion predicate holds it holds for the rest of the session.
pub proof fn lemma_completion_monotone(s: Scale)
    requires
        s.wf(),
    ensures
        connected_next(s).0.cursor >= s.cursor,
        delete_acked_next(s).0.cursor >= s.cursor,
        item_acked_next(s).0.cursor >= s.cursor,
        send_failed_next(s).0.cursor >= s.cursor,
        s.spec_complete() ==> connected_next(s).0.spec_complete(),
        s.spec_complete() ==> delete_acked_next(s).0.spec_complete(),
        s.spec_complete() ==> item_acked_next(s).0.spec_complete(),
        s.spec_complete() ==> send_failed_next(s).0.spec_complete(),
{
}

/// Acknowledged items per ten thousand: the percentage with two decimals,
/// scaled to an integer.
pub open spec fn percent_bp(s: Scale) -> nat
    recommends
        s.total > 0,
{
    (s.cursor * 10000 / (s.total as int)) as nat
}

/// `n` spaces.
pub open spec fn spaces(n: nat) -> Seq<char> {
    Seq::new(n, |i: int| ' ')
}

/// `s` padded on the left with spaces to width `w`.
pub open spec fn pad_spaces(s: Seq<char>, w: nat) -> Seq<char> {
    if s.len() >= w {
        s
    } else {
        spaces((w - s.len()) as nat) + s
    }
}

/// A fraction below one hundred as two digits, zero padded.
pub open spec fn frac2(f: nat) -> Seq<char> {
    seq![digit_char(f / 10), digit_char(f % 10)]
}

/// A basis-point count rendered for the status line: the integer
/// part right-aligned in four characters, a point, two decimals.
pub open spec fn pct_render(bp: nat) -> Seq<char> {
    pad_spaces(dec_digits(bp / 100), 4) + seq!['.'] + frac2(bp % 100)
}

/// The status line of a device, per `Scale::status_str`.
pub open spec fn status_line(s: Scale) -> Seq<char> {
    if s.spec_complete() {
        s.ip@ + " [complete]"@
    } else if s.should_delete && !s.delete_completed {
        s.ip@ + " [deleting]"@
    } else {
        s.ip@ + " ["@ + pct_render(percent_bp(s)) + "%]"@
    }
}

proof fn lemma_dec_digits_len_small(n: nat)
    requires
        n <= 100,
    ensures
        n < 10 ==> dec_digits(n).len() == 1,
        10 <= n < 100 ==> dec_digits(n).len() == 2,
        n == 100 ==> dec_digits(n).len() == 3,
{
    if n >= 10 {
        assert(dec_digits(n / 10).len() == if n == 100 {
            2int
        } else {
            1int
        }) by {
            if n == 100 {
                assert(dec_digits(10nat) == dec_digits(1nat) + seq![digit_char(0)]);
            }
        }
    }
}

/// Append the status percentage for `bp` basis points, per `pct_render`.
fn append_pct(s: &mut String, bp: u32)
    requires
        bp <= 10000,
    ensures
        final(s)@ == old(s)@ + pct_render(bp as nat),
{
    let ip: u32 = bp / 100;
    let frac: u32 = bp % 100;
    proof {
        lemma_dec_digits_len_small(ip as nat);
        reveal_strlit(" ");
        reveal_strlit("  ");
        reveal_strlit("   ");
        reveal_strlit(".");
        reveal_strlit("0");
    }
    if ip < 10 {
        s.append("   ");
        assert("   "@ =~= spaces(3));
    } else if ip < 100 {
        s.append("  ");
        assert("  "@ =~= spaces(2));
    } else {
        s.append(" ");
        assert(" "@ =~= spaces(1));
    }
    crate::digits::append_u32(s, ip);
    s.append(".");
    assert("."@ =~= seq!['.']);
    if frac < 10 {
        s.append("0");
        assert("0"@ =~= seq![digit_char(0)]);
    }
    crate::digits::append_u32(s, frac);
    proof {
        assert(frac2(frac as nat) =~= (if frac < 10 {
            seq![digit_char(0)]
        } else {
            Seq::<char>::empty()
        }) + dec_digits(frac as nat)) by {
            if frac >= 10 {
                assert(dec_digits((frac / 10) as nat) =~= seq![digit_char((frac / 10) as nat)]);
            }
        }
        assert(pad_spaces(dec_digits(ip as nat), 4) =~= (if ip < 10 {
            spaces(3)
        } else if ip < 100 {
            spaces(2)
        } else {
            spaces(1)
        }) + dec_digits(ip as nat));
        assert(final(s)@ =~= old(s)@ + pct_render(bp as nat));
    }
}

} // verus!
