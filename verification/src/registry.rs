//! The device registry: where foreign callbacks and the orchestrator meet.
//!
//! The vendor library identifies a device in a callback by nothing but its
//! address string, so one registry maps each address to its `Scale` record
//! and owns the shared, post-correction item list. The transport layer
//! translates each raw callback into a call here — connection up, delete
//! acknowledged, item acknowledged, send failed — and performs the returned
//! action; the orchestrator polls the same registry once a second until
//! every device has settled or the deadline passes.

use vstd::prelude::*;
use crate::catalog::{CatalogItem, pushable};
use crate::device::{
    connected_next, delete_acked_next, item_acked_next, send_failed_next, status_line, DeviceAction,
    ProtocolState, Scale,
};
use crate::record::{action_code, encodes_item, DfAction, TD_ST_PLU_V06};

verus! {

/// Vendor state code: the connection came up.
pub const STATE_CONNECT: u16 = 1;

/// Vendor state code: a benign receive timeout the vendor layer retries on
/// its own.
pub const STATE_RECEIVE_TIME_OVER: u16 = 22;

/// First byte of the name field a delete-all acknowledgment echoes: the
/// sentinel prefix `W` that marks the wipe's answer record.
pub const DELETE_ECHO_MARK: u8 = 87;

/// What became of one callback.
#[derive(Debug, PartialEq, Eq, Structural, Copy, Clone)]
pub enum EventOutcome {
    /// The event was applied; the transport must perform this action.
    Act(DeviceAction),
    /// The address names no registered device; log and drop the event.
    UnknownDevice,
    /// The event carries nothing for the state machine; log and drop it.
    Ignored,
}

/// How one poll round left the session.
#[derive(Debug, PartialEq, Eq, Structural, Copy, Clone)]
pub enum PollOutcome {
    /// Every device has settled: completed, or errored and excluded.
    Done,
    /// Work remains and the deadline has not passed.
    Waiting,
    /// The deadline passed with at least one device unsettled.
    TimedOut,
}

/// One poll round's report: a status line per device in registry order, the
/// addresses whose completion is to be logged now, and the round's outcome.
pub struct PollReport {
    pub status: Vec<String>,
    pub newly_complete: Vec<String>,
    pub outcome: PollOutcome,
}

/// The failure kinds of one synchronization session.
#[derive(Debug)]
pub enum SyncError {
    /// Malformed input; the run aborts before any device is touched.
    Config,
    /// The allocator found a category's code space exhausted.
    Allocation,
    /// A vendor call failed for the named device, which is disconnected and
    /// excluded; sibling devices continue.
    Protocol(String),
    /// The deadline passed with the named devices still incomplete.
    Timeout(Vec<String>),
}

/// A delete-all acknowledgment is recognized by the sentinel prefix of the
/// echoed record's name field.
pub open spec fn delete_echo(name: Seq<u8>) -> bool {
    name.len() >= 1 && name[0] == DELETE_ECHO_MARK
}

/// The first registry index holding a device with address `ip`.
pub open spec fn find_ip(scales: Seq<Scale>, ip: Seq<char>) -> Option<int>
    decreases scales.len(),
{
    if scales.len() == 0 {
        None
    } else if scales[0].ip@ == ip {
        Some(0int)
    } else {
        match find_ip(scales.drop_first(), ip) {
            Some(k) => Some(k + 1),
            None => None,
        }
    }
}

/// Every device has settled: completed, or errored and excluded from the
/// session.
pub open spec fn all_settled(scales: Seq<Scale>) -> bool {
    forall|i: int|
        0 <= i < scales.len() ==> (#[trigger] scales[i]).spec_complete() || scales[i].state
            == ProtocolState::Error
}

/// The addresses whose completion a poll round reports for the first time:
/// complete and not yet notified, in registry order.
pub open spec fn newly_complete_ips(scales: Seq<Scale>) -> Seq<Seq<char>>
    decreases scales.len(),
{
    if scales.len() == 0 {
        Seq::empty()
    } else {
        newly_complete_ips(scales.drop_last()) + (if scales.last().spec_complete()
            && !scales.last().notified {
            seq![scales.last().ip@]
        } else {
            Seq::<Seq<char>>::empty()
        })
    }
}

/// The addresses of the devices that have not completed, in registry order.
pub open spec fn incomplete_ips(scales: Seq<Scale>) -> Seq<Seq<char>>
    decreases scales.len(),
{
    if scales.len() == 0 {
        Seq::empty()
    } else {
        incomplete_ips(scales.drop_last()) + (if !scales.last().spec_complete() {
            seq![scales.last().ip@]
        } else {
            Seq::<Seq<char>>::empty()
        })
    }
}

proof fn lemma_find_ip_props(scales: Seq<Scale>, ip: Seq<char>)
    ensures
        match find_ip(scales, ip) {
            Some(k) => 0 <= k < scales.len() && scales[k].ip@ == ip,
            None => forall|j: int| 0 <= j < scales.len() ==> (#[trigger] scales[j]).ip@ != ip,
        },
    decreases scales.len(),
{
    if scales.len() > 0 && scales[0].ip@ != ip {
        lemma_find_ip_props(scales.drop_first(), ip);
        match find_ip(scales.drop_first(), ip) {
            Some(k) => {
                assert(scales.drop_first()[k] == scales[k + 1]);
            },
            None => {
                assert forall|j: int| 0 <= j < scales.len() implies (#[trigger] scales[j]).ip@
                    != ip by {
                    if j > 0 {
                        assert(scales.drop_first()[j - 1] == scales[j]);
                    }
                }
            },
        }
    }
}

proof fn lemma_find_ip_skip(scales: Seq<Scale>, ip: Seq<char>, k: int)
    requires
        0 <= k <= scales.len(),
        forall|j: int| 0 <= j < k ==> (#[trigger] scales[j]).ip@ != ip,
    ensures
        k == scales.len() ==> find_ip(scales, ip) is None,
        k < scales.len() && scales[k].ip@ == ip ==> find_ip(scales, ip) == Some(k),
    decreases scales.len(),
{
    if scales.len() > 0 && k > 0 {
        assert(scales[0].ip@ != ip);
        assert(forall|j: int|
            0 <= j < k - 1 ==> #[trigger] scales.drop_first()[j] == scales[j + 1]);
        lemma_find_ip_skip(scales.drop_first(), ip, k - 1);
        if k < scales.len() {
            assert(scales.drop_first()[k - 1] == scales[k]);
        }
    }
}

/// The process-wide registry of one synchronization session: the shared,
/// read-only item list and one record per registered device.
pub struct ScaleRegistry {
    /// The post-correction catalog every device downloads from.
    pub items: Vec<CatalogItem>,
    /// One record per registered device, addresses pairwise distinct.
    pub scales: Vec<Scale>,
}

impl ScaleRegistry {
    /// The registry invariant: every record is well-formed, shares the one
    /// item list, and no two records answer to the same address.
    pub open spec fn wf(self) -> bool {
        &&& forall|i: int|
            0 <= i < self.scales@.len() ==> (#[trigger] self.scales@[i]).wf() && self.scales@[i].total
                == self.items@.len()
        &&& forall|i: int, j: int|
            0 <= i < j < self.scales@.len() ==> (#[trigger] self.scales@[i]).ip@ != (
            #[trigger] self.scales@[j]).ip@
    }

    /// A registry over the session's corrected, restricted catalog, with no
    /// devices yet.
    pub fn new(items: Vec<CatalogItem>) -> (r: ScaleRegistry)
        ensures
            r.wf(),
            r.items == items,
            r.scales@ =~= Seq::<Scale>::empty(),
    {
        ScaleRegistry { items, scales: Vec::new() }
    }

    /// The registry index of the device at `ip`, per `find_ip`.
    fn find(&self, ip: &String) -> (r: Option<usize>)
        ensures
            match r {
                Some(k) => find_ip(self.scales@, ip@) == Some(k as int),
                None => find_ip(self.scales@, ip@) is None,
            },
    {
        let n: usize = self.scales.len();
        let mut i: usize = 0;
        while i < n
            invariant
                0 <= i <= n,
                n == self.scales@.len(),
                forall|j: int| 0 <= j < i ==> (#[trigger] self.scales@[j]).ip@ != ip@,
            decreases n - i,
        {
            if self.scales[i].ip == *ip {
                proof {
                    lemma_find_ip_skip(self.scales@, ip@, i as int);
                }
                return Some(i);
            }
            i = i + 1;
        }
        proof {
            lemma_find_ip_skip(self.scales@, ip@, n as int);
        }
        None
    }

    /// Register a device after the vendor's add-connection call: on vendor
    /// success, insert a fresh record — disconnected, cursor at zero,
    /// sharing the session's catalog — replacing any record already under
    /// that address. On vendor failure, no side effects.
    pub fn add_device(&mut self, ip: &String, idx: i16, should_delete: bool, vendor_ok: bool) -> (added: bool)
        requires
            old(self).wf(),
        ensures
            final(self).wf(),
            final(self).items == old(self).items,
            added == vendor_ok,
            !vendor_ok ==> *final(self) == *old(self),
            vendor_ok ==> ({
                let fresh = Scale {
                    ip: *ip,
                    idx: idx,
                    state: ProtocolState::Disconnected,
                    should_delete: should_delete,
                    delete_completed: false,
                    cursor: 0usize,
                    total: old(self).items.len(),
                    notified: false,
                };
                match find_ip(old(self).scales@, ip@) {
                    Some(k) => final(self).scales@ == old(self).scales@.update(k, fresh),
                    None => final(self).scales@ == old(self).scales@.push(fresh),
                }
            }),
    {
        if !vendor_ok {
            return false;
        }
        let fresh = Scale {
            ip: ip.clone(),
            idx: idx,
            state: ProtocolState::Disconnected,
            should_delete: should_delete,
            delete_completed: false,
            cursor: 0,
            total: self.items.len(),
            notified: false,
        };
        proof {
            lemma_find_ip_props(self.scales@, ip@);
        }
        match self.find(ip) {
            Some(k) => {
                vstd::std_specs::core::index_set(&mut self.scales, k, fresh);
            },
            None => {
                self.scales.push(fresh);
            },
        }
        true
    }

    /// Mark the device at `ip` connecting, before the vendor connect call
    /// is issued for it; false when no such device is registered.
    pub fn begin_connect(&mut self, ip: &String) -> (found: bool)
        requires
            old(self).wf(),
        ensures
            final(self).wf(),
            final(self).items == old(self).items,
            match find_ip(old(self).scales@, ip@) {
                Some(k) => found && final(self).scales@ == old(self).scales@.update(
                    k,
                    (Scale { state: ProtocolState::Connecting, ..old(self).scales@[k] }),
                ),
                None => !found && *final(self) == *old(self),
            },
    {
        proof {
            lemma_find_ip_props(self.scales@, ip@);
        }
        match self.find(ip) {
            Some(k) => {
                let mut s = self.scales.remove(k);
                s.state = ProtocolState::Connecting;
                self.scales.insert(k, s);
                proof {
                    assert(final(self).scales@ =~= old(self).scales@.update(
                        k as int,
                        (Scale { state: ProtocolState::Connecting, ..old(self).scales@[k as int] }),
                    ));
                }
                true
            },
            None => false,
        }
    }

    /// Apply one vendor state callback: a connect report drives the
    /// device's connected transition; a receive timeout is benign and
    /// dropped; any other code is dropped for the caller to log. An
    /// unknown address is reported, never inserted.
    pub fn on_state_event(&mut self, ip: &String, state_code: u16) -> (r: EventOutcome)
        requires
            old(self).wf(),
        ensures
            final(self).wf(),
            final(self).items == old(self).items,
            match find_ip(old(self).scales@, ip@) {
                Some(k) => {
                    if state_code == STATE_CONNECT {
                        let (next, act) = connected_next(old(self).scales@[k]);
                        final(self).scales@ == old(self).scales@.update(k, next) && r
                            == EventOutcome::Act(act)
                    } else {
                        *final(self) == *old(self) && r == EventOutcome::Ignored
                    }
                },
                None => *final(self) == *old(self) && r == EventOutcome::UnknownDevice,
            },
    {
        proof {
            lemma_find_ip_props(self.scales@, ip@);
        }
        match self.find(ip) {
            Some(k) => {
                if state_code == STATE_CONNECT {
                    let mut s = self.scales.remove(k);
                    let act = s.on_connected();
                    self.scales.insert(k, s);
                    proof {
                        assert(final(self).scales@ =~= old(self).scales@.update(
                            k as int,
                            connected_next(old(self).scales@[k as int]).0,
                        ));
                    }
                    EventOutcome::Act(act)
                } else {
                    EventOutcome::Ignored
                }
            },
            None => EventOutcome::UnknownDevice,
        }
    }

    /// Apply one vendor receive callback: a delete-all echo bearing the
    /// sentinel name prefix acknowledges the wipe; a download echo
    /// acknowledges one item; everything else is dropped. An unknown
    /// address is reported, never inserted.
    pub fn on_receive_event(&mut self, ip: &String, action: u16, echoed_name: &Vec<u8>) -> (r: EventOutcome)
        requires
            old(self).wf(),
        ensures
            final(self).wf(),
            final(self).items == old(self).items,
            match find_ip(old(self).scales@, ip@) {
                Some(k) => {
                    if action == action_code(DfAction::DELETEALL) && delete_echo(echoed_name@) {
                        let (next, act) = delete_acked_next(old(self).scales@[k]);
                        final(self).scales@ == old(self).scales@.update(k, next) && r
                            == EventOutcome::Act(act)
                    } else if action == action_code(DfAction::DOWNLOAD) {
                        let (next, act) = item_acked_next(old(self).scales@[k]);
                        final(self).scales@ == old(self).scales@.update(k, next) && r
                            == EventOutcome::Act(act)
                    } else {
                        *final(self) == *old(self) && r == EventOutcome::Ignored
                    }
                },
                None => *final(self) == *old(self) && r == EventOutcome::UnknownDevice,
            },
    {
        proof {
            lemma_find_ip_props(self.scales@, ip@);
        }
        match self.find(ip) {
            Some(k) => {
                if action == DfAction::DELETEALL.code() {
                    let sentinel = echoed_name.len() >= 1 && echoed_name[0] == DELETE_ECHO_MARK;
                    if sentinel {
                        let mut s = self.scales.remove(k);
                        let act = s.on_delete_acked();
                        self.scales.insert(k, s);
                        proof {
                            assert(final(self).scales@ =~= old(self).scales@.update(
                                k as int,
                                delete_acked_next(old(self).scales@[k as int]).0,
                            ));
                        }
                        EventOutcome::Act(act)
                    } else {
                        EventOutcome::Ignored
                    }
                } else if action == DfAction::DOWNLOAD.code() {
                    let mut s = self.scales.remove(k);
                    let act = s.on_item_acked();
                    self.scales.insert(k, s);
                    proof {
                        assert(final(self).scales@ =~= old(self).scales@.update(
                            k as int,
                            item_acked_next(old(self).scales@[k as int]).0,
                        ));
                    }
                    EventOutcome::Act(act)
                } else {
                    EventOutcome::Ignored
                }
            },
            None => EventOutcome::UnknownDevice,
        }
    }

    /// A vendor send failed for the device at `ip`: error it out and have
    /// the transport disconnect it; its siblings are untouched.
    pub fn on_send_failed(&mut self, ip: &String) -> (r: EventOutcome)
        requires
            old(self).wf(),
        ensures
            final(self).wf(),
            final(self).items == old(self).items,
            match find_ip(old(self).scales@, ip@) {
                Some(k) => {
                    let (next, act) = send_failed_next(old(self).scales@[k]);
                    final(self).scales@ == old(self).scales@.update(k, next) && r
                        == EventOutcome::Act(act)
                },
                None => *final(self) == *old(self) && r == EventOutcome::UnknownDevice,
            },
    {
        proof {
            lemma_find_ip_props(self.scales@, ip@);
        }
        match self.find(ip) {
            Some(k) => {
                let mut s = self.scales.remove(k);
                let act = s.on_send_failed();
                self.scales.insert(k, s);
                proof {
                    assert(final(self).scales@ =~= old(self).scales@.update(
                        k as int,
                        send_failed_next(old(self).scales@[k as int]).0,
                    ));
                }
                EventOutcome::Act(act)
            },
            None => EventOutcome::UnknownDevice,
        }
    }

    /// The wire record for the item at `index` of the shared catalog, for
    /// the transport to send on a `SendItem` action.
    pub fn record_for(&self, index: usize) -> (r: Option<TD_ST_PLU_V06>)
        ensures
            index < self.items@.len() ==> (r is Some <==> pushable(self.items@[index as int]@)),
            index >= self.items@.len() ==> r is None,
            r matches Some(rec) ==> index < self.items@.len() && encodes_item(
                self.items@[index as int]@,
                rec,
            ),
    {
        if index < self.items.len() {
            TD_ST_PLU_V06::from_item(&self.items[index])
        } else {
            None
        }
    }

    /// One poll round, at `elapsed_secs` into the session against the
    /// configured `timeout` (zero meaning none): report a status line per
    /// device, mark and return the devices whose completion is to be logged
    /// now — each is returned once per session — and judge the round: done
    /// when every device has settled, timed out once the deadline has
    /// passed, waiting otherwise.
    pub fn poll(&mut self, elapsed_secs: u64, timeout: u32) -> (report: PollReport)
        requires
            old(self).wf(),
        ensures
            final(self).wf(),
            final(self).items == old(self).items,
            final(self).scales@.len() == old(self).scales@.len(),
            forall|k: int|
                0 <= k < old(self).scales@.len() ==> final(self).scales@[k] == (Scale {
                    notified: old(self).scales@[k].notified || old(self).scales@[k].spec_complete(),
                    ..(#[trigger] old(self).scales@[k])
                }),
            report.status@.len() == old(self).scales@.len(),
            forall|k: int|
                0 <= k < old(self).scales@.len() ==> (#[trigger] report.status@[k])@ == status_line(
                    old(self).scales@[k],
                ),
            report.newly_complete@.map_values(|s: String| s@) == newly_complete_ips(
                old(self).scales@,
            ),
            report.outcome == (if all_settled(old(self).scales@) {
                PollOutcome::Done
            } else if timeout != 0 && elapsed_secs >= timeout {
                PollOutcome::TimedOut
            } else {
                PollOutcome::Waiting
            }),
    {
        let ghost orig = self.scales@;
        let mut status: Vec<String> = Vec::new();
        let mut newly: Vec<String> = Vec::new();
        let mut done: bool = true;
        let n: usize = self.scales.len();
        let mut i: usize = 0;
        while i < n
            invariant
                0 <= i <= n,
                n == orig.len(),
                self.scales@.len() == n,
                self.items == old(self).items,
                forall|k: int|
                    0 <= k < i ==> self.scales@[k] == (Scale {
                        notified: orig[k].notified || orig[k].spec_complete(),
                        ..(#[trigger] orig[k])
                    }),
                forall|k: int| i <= k < n ==> #[trigger] self.scales@[k] == orig[k],
                forall|k: int|
                    0 <= k < n ==> (#[trigger] orig[k]).wf() && orig[k].total
                        == self.items@.len(),
                status@.len() == i,
                forall|k: int|
                    0 <= k < i ==> (#[trigger] status@[k])@ == status_line(orig[k]),
                newly@.map_values(|s: String| s@) == newly_complete_ips(orig.subrange(0, i as int)),
                done == all_settled(orig.subrange(0, i as int)),
            decreases n - i,
        {
            let mut s = self.scales.remove(i);
            assert(s == orig[i as int]);
            let line = s.status_str();
            status.push(line);
            let completed = s.complete();
            proof {
                assert(orig.subrange(0, i + 1).drop_last() =~= orig.subrange(0, i as int));
                assert(orig.subrange(0, i + 1).last() == orig[i as int]);
            }
            if completed && !s.notified {
                s.notified = true;
                newly.push(s.ip.clone());
                proof {
                    assert(newly@.map_values(|s: String| s@) =~= newly_complete_ips(
                        orig.subrange(0, i + 1),
                    ));
                }
            } else {
                proof {
                    assert(newly@.map_values(|s: String| s@) =~= newly_complete_ips(
                        orig.subrange(0, i + 1),
                    ));
                }
            }
            if !completed && !(s.state == ProtocolState::Error) {
                done = false;
            }
            proof {
                assert(all_settled(orig.subrange(0, i + 1)) == (all_settled(
                    orig.subrange(0, i as int),
                ) && (orig[i as int].spec_complete() || orig[i as int].state
                    == ProtocolState::Error))) by {
                    if all_settled(orig.subrange(0, i as int)) && (orig[i as int].spec_complete()
                        || orig[i as int].state == ProtocolState::Error) {
                        assert forall|j: int| 0 <= j < i + 1 implies (#[trigger] orig.subrange(
                            0,
                            i + 1,
                        )[j]).spec_complete() || orig.subrange(0, i + 1)[j].state
                            == ProtocolState::Error by {
                            if j < i {
                                assert(orig.subrange(0, i as int)[j] == orig.subrange(0, i + 1)[j]);
                            }
                        }
                    }
                }
            }
            self.scales.insert(i, s);
            i = i + 1;
        }
        proof {
            assert(orig.subrange(0, n as int) =~= orig);
            assert forall|k: int| 0 <= k < self.scales@.len() implies (
            #[trigger] self.scales@[k]).wf() && self.scales@[k].total == self.items@.len() by {
                assert(orig[k].wf());
            }
            assert forall|a: int, b: int| 0 <= a < b < self.scales@.len() implies (
            #[trigger] self.scales@[a]).ip@ != (#[trigger] self.scales@[b]).ip@ by {
                assert(self.scales@[a].ip == orig[a].ip && self.scales@[b].ip == orig[b].ip);
                assert(orig[a].ip@ != orig[b].ip@);
            }
        }
        let outcome = if done {
            PollOutcome::Done
        } else if timeout != 0 && elapsed_secs >= timeout as u64 {
            PollOutcome::TimedOut
        } else {
            PollOutcome::Waiting
        };
        PollReport { status, newly_complete: newly, outcome }
    }

    /// The addresses of the devices that have not completed — the payload
    /// of a `SyncError::Timeout` report.
    pub fn incomplete_devices(&self) -> (r: Vec<String>)
        ensures
            r@.map_values(|s: String| s@) == incomplete_ips(self.scales@),
    {
        let mut out: Vec<String> = Vec::new();
        let n: usize = self.scales.len();
        let mut i: usize = 0;
        proof {
            assert(out@.map_values(|s: String| s@) =~= incomplete_ips(
                self.scales@.subrange(0, 0),
            ));
        }
        while i < n
            invariant
                0 <= i <= n,
                n == self.scales@.len(),
                out@.map_values(|s: String| s@) == incomplete_ips(
                    self.scales@.subrange(0, i as int),
                ),
            decreases n - i,
        {
            proof {
                assert(self.scales@.subrange(0, i + 1).drop_last() =~= self.scales@.subrange(
                    0,
                    i as int,
                ));
                assert(self.scales@.subrange(0, i + 1).last() == self.scales@[i as int]);
            }
            if !self.scales[i].complete() {
                out.push(self.scales[i].ip.clone());
            }
            proof {
                assert(out@.map_values(|s: String| s@) =~= incomplete_ips(
                    self.scales@.subrange(0, i + 1),
                ));
            }
            i = i + 1;
        }
        proof {
            assert(self.scales@.subrange(0, n as int) =~= self.scales@);
        }
        out
    }
}

} // verus!
