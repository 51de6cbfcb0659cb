//! Installation orchestration: the per-version life cycle and the guard that
//! keeps two installs of one (backend, version) pair from running at once.
use vstd::prelude::*;

use crate::request::{str_eq, BackendArg, BackendArgView};

verus! {

/// Where one tool version stands.
#[derive(PartialEq, Eq, Structural, Clone, Copy, Debug)]
pub enum InstallState {
    Requested,
    Resolving,
    Installing,
    Verifying,
    Installed,
    Failed,
    Uninstalling,
    Removed,
}

/// What happened to a tool version.
#[derive(PartialEq, Eq, Structural, Clone, Copy, Debug)]
pub enum InstallEvent {
    /// Version lookup started.
    Resolve,
    /// The version was resolved and the backend's install was called.
    Resolved,
    /// The backend's install returned; `verify` tells whether a check follows.
    BackendDone { verify: bool },
    /// The installed tool passed its check.
    Verified,
    /// The install or its check failed.
    Failure,
    /// Removal started.
    Uninstall,
    /// Removal finished.
    Uninstalled,
    /// The version was asked for again.
    Request,
}

/// The life cycle of a tool version; `None` where an event does not apply.
pub open spec fn transition(s: InstallState, e: InstallEvent) -> Option<InstallState> {
    match (s, e) {
        (InstallState::Requested, InstallEvent::Resolve) => Some(InstallState::Resolving),
        (InstallState::Resolving, InstallEvent::Resolved) => Some(InstallState::Installing),
        (InstallState::Installing, InstallEvent::BackendDone { verify }) => if verify {
            Some(InstallState::Verifying)
        } else {
            Some(InstallState::Installed)
        },
        (InstallState::Verifying, InstallEvent::Verified) => Some(InstallState::Installed),
        (InstallState::Installing, InstallEvent::Failure) => Some(InstallState::Failed),
        (InstallState::Verifying, InstallEvent::Failure) => Some(InstallState::Failed),
        (InstallState::Installed, InstallEvent::Uninstall) => Some(InstallState::Uninstalling),
        (InstallState::Uninstalling, InstallEvent::Uninstalled) => Some(InstallState::Removed),
        (InstallState::Removed, InstallEvent::Request) => Some(InstallState::Requested),
        _ => None,
    }
}

/// The next state of a tool version after an event.
pub fn next_state(s: InstallState, e: InstallEvent) -> (r: Option<InstallState>)
    ensures
        r == transition(s, e),
{
    match (s, e) {
        (InstallState::Requested, InstallEvent::Resolve) => Some(InstallState::Resolving),
        (InstallState::Resolving, InstallEvent::Resolved) => Some(InstallState::Installing),
        (InstallState::Installing, InstallEvent::BackendDone { verify }) => {
            if verify {
                Some(InstallState::Verifying)
            } else {
                Some(InstallState::Installed)
            }
        },
        (InstallState::Verifying, InstallEvent::Verified) => Some(InstallState::Installed),
        (InstallState::Installing, InstallEvent::Failure) => Some(InstallState::Failed),
        (InstallState::Verifying, InstallEvent::Failure) => Some(InstallState::Failed),
        (InstallState::Installed, InstallEvent::Uninstall) => Some(InstallState::Uninstalling),
        (InstallState::Uninstalling, InstallEvent::Uninstalled) => Some(InstallState::Removed),
        (InstallState::Removed, InstallEvent::Request) => Some(InstallState::Requested),
        _ => None,
    }
}

/// A (backend, version) pair whose install is running.
pub type InstallKey = (BackendArgView, Seq<char>);

/// The guard after asking to start `k`: granted when `k` is not running.
pub open spec fn begin_spec(running: Seq<InstallKey>, k: InstallKey) -> (bool, Seq<InstallKey>) {
    if running.contains(k) {
        (false, running)
    } else {
        (true, running.push(k))
    }
}

/// The installs in flight, at most one per (backend, version) pair.
#[derive(Debug)]
pub struct InstallGate {
    running: Vec<(BackendArg, String)>,
}

impl View for InstallGate {
    type V = Seq<InstallKey>;

    closed spec fn view(&self) -> Seq<InstallKey> {
        self.running@.map_values(|e: (BackendArg, String)| (e.0@, e.1@))
    }
}

impl InstallGate {
    /// No pair is recorded twice.
    pub open spec fn wf(&self) -> bool {
        forall|i: int, j: int| 0 <= i < j < self@.len() ==> self@[i] != self@[j]
    }

    pub fn new() -> (r: Self)
        ensures
            r@ == Seq::<InstallKey>::empty(),
            r.wf(),
    {
        let r = InstallGate { running: Vec::new() };
        assert(r@ =~= Seq::<InstallKey>::empty());
        r
    }

    fn position(&self, ba: &BackendArg, version: &str) -> (r: Option<usize>)
        ensures
            match r {
                Some(k) => k < self@.len() && self@[k as int] == (ba@, version@),
                None => !self@.contains((ba@, version@)),
            },
    {
        let mut k: usize = 0;
        while k < self.running.len()
            invariant
                k <= self.running.len(),
                forall|j: int| 0 <= j < k ==> self@[j] != (ba@, version@),
            decreases self.running.len() - k,
        {
            assert(self@[k as int] == (self.running@[k as int].0@, self.running@[k as int].1@));
            if self.running[k].0.same_backend(ba) && str_eq(self.running[k].1.as_str(), version) {
                return Some(k);
            }
            k = k + 1;
        }
        None
    }

    /// Asks to start installing `version` of `ba`: granted, and recorded, only
    /// when no install of that pair is running.
    pub fn try_begin(&mut self, ba: &BackendArg, version: &str) -> (r: bool)
        requires
            old(self).wf(),
        ensures
            final(self).wf(),
            (r, final(self)@) == begin_spec(old(self)@, (ba@, version@)),
    {
        match self.position(ba, version) {
            Some(_) => false,
            None => {
                let ghost before = self@;
                self.running.push((ba.clone(), version.to_owned()));
                assert(self@ =~= before.push((ba@, version@)));
                assert forall|i: int, j: int| 0 <= i < j < self@.len() implies self@[i] != self@[j] by {
                    if j == before.len() {
                        assert(self@[i] == before[i]);
                    } else {
                        assert(self@[i] == before[i] && self@[j] == before[j]);
                    }
                }
                true
            },
        }
    }

    /// Records that the install of `version` of `ba` ended.
    pub fn finish(&mut self, ba: &BackendArg, version: &str)
        requires
            old(self).wf(),
        ensures
            final(self).wf(),
            !final(self)@.contains((ba@, version@)),
            old(self)@.contains((ba@, version@)) ==> final(self)@.len() == old(self)@.len() - 1,
            !old(self)@.contains((ba@, version@)) ==> final(self)@ == old(self)@,
            forall|k: InstallKey| k != (ba@, version@) ==> (#[trigger] final(self)@.contains(k) <==> old(self)@.contains(k)),
    {
        match self.position(ba, version) {
            Some(i) => {
                let ghost before = self@;
                self.running.remove(i);
                proof {
                    assert(self@ =~= before.remove(i as int));
                    assert forall|a: int, b: int| 0 <= a < b < self@.len() implies self@[a] != self@[b] by {
                        let a0 = if a < i { a } else { a + 1 };
                        let b0 = if b < i { b } else { b + 1 };
                        assert(self@[a] == before[a0] && self@[b] == before[b0]);
                    }
                    if self@.contains((ba@, version@)) {
                        let q = choose|q: int| 0 <= q < self@.len() && self@[q] == (ba@, version@);
                        let q0 = if q < i { q } else { q + 1 };
                        assert(before[q0] == before[i as int]);
                    }
                    assert forall|k: InstallKey| k != (ba@, version@) implies (#[trigger] self@.contains(k) <==> before.contains(k)) by {
                        if before.contains(k) {
                            let q = choose|q: int| 0 <= q < before.len() && before[q] == k;
                            if q < i {
                                assert(self@[q] == k);
                            } else {
                                assert(q != i);
                                assert(self@[q - 1] == k);
                            }
                        }
                        if self@.contains(k) {
                            let q = choose|q: int| 0 <= q < self@.len() && self@[q] == k;
                            if q < i {
                                assert(before[q] == k);
                            } else {
                                assert(before[q + 1] == k);
                            }
                        }
                    }
                }
            },
            None => {},
        }
    }
}

/// Two requests to install the same (backend, version) pair, with no finish
/// between them, are never both granted.
pub proof fn lemma_single_flight(running: Seq<InstallKey>, k: InstallKey)
    ensures
        begin_spec(running, k).0 ==> !begin_spec(begin_spec(running, k).1, k).0,
        !begin_spec(begin_spec(running, k).1, k).0,
{
    if !running.contains(k) {
        assert(running.push(k)[running.len() as int] == k);
    }
}

} // verus!
