//! Process-activation observation: the payload sent to the front end, the
//! cooperative control flags of the observer loop, and the registry of
//! per-process accessibility observers.
//!
//! The OS notification subscriptions themselves live outside this crate;
//! the classification of an activation and the debounce bookkeeping are
//! verified.

use vstd::prelude::*;
use crate::editor_config::spec_is_supported_bundle;

verus! {

/// Payload for app activation events.
pub struct AppActivationPayload {
    /// "editor", "tab_manager", or "other".
    pub app_type: String,
    /// The activated application's bundle id, when known.
    pub bundle_id: Option<String>,
    /// Whether the focused window sits on the primary screen.
    pub is_on_primary_screen: bool,
}

/// The app type for an activation: a supported editor's bundle id makes
/// an "editor", this process itself a "tab_manager", anything else an
/// "other".
pub open spec fn spec_app_type(bundle: Option<Seq<char>>, is_self: bool) -> Seq<char> {
    if is_self {
        "tab_manager"@
    } else {
        match bundle {
            Some(b) => if spec_is_supported_bundle(b) {
                "editor"@
            } else {
                "other"@
            },
            None => "other"@,
        }
    }
}

/// Classify an activation into its payload app type.
pub fn app_type_for_activation(bundle_id: Option<&str>, is_self: bool) -> (r: String)
    ensures
        r@ == spec_app_type(
            match bundle_id {
                None => None,
                Some(b) => Some(b@),
            },
            is_self,
        ),
{
    if is_self {
        return "tab_manager".to_owned();
    }
    match bundle_id {
        Some(b) => {
            if crate::editor_config::is_supported_editor(b) {
                "editor".to_owned()
            } else {
                "other".to_owned()
            }
        },
        None => "other".to_owned(),
    }
}

/// Cooperative control of the activation observer: a running flag and the
/// debounce versions for pending "other" and display-change events.  An
/// event scheduled at version `v` fires only when the version still equals
/// `v` after the delay; bumping the version cancels it.
pub struct ObserverControl {
    /// The observer keeps running while this holds.
    pub running: bool,
    /// Debounce version for pending "other"-app events.
    pub debounce_version: u64,
    /// Debounce version for pending display-change events.
    pub display_debounce_version: u64,
}

impl ObserverControl {
    /// A running observer with no pending event.
    pub fn new() -> (r: ObserverControl)
        ensures
            r.running,
            r.debounce_version == 0,
            r.display_debounce_version == 0,
    {
        ObserverControl { running: true, debounce_version: 0, display_debounce_version: 0 }
    }

    /// Stop the observer: it unsubscribes at its next callback.
    pub fn stop_observer(&mut self)
        ensures
            !final(self).running,
            final(self).debounce_version == old(self).debounce_version,
            final(self).display_debounce_version == old(self).display_debounce_version,
    {
        self.running = false;
    }

    /// Cancel any pending "other"-app event by advancing the version.
    pub fn cancel_pending_other_event(&mut self)
        ensures
            final(self).debounce_version == old(self).debounce_version + 1 || (old(
                self,
            ).debounce_version == u64::MAX && final(self).debounce_version == 0),
            final(self).running == old(self).running,
            final(self).display_debounce_version == old(self).display_debounce_version,
    {
        if self.debounce_version == u64::MAX {
            self.debounce_version = 0;
        } else {
            self.debounce_version = self.debounce_version + 1;
        }
    }

    /// Whether an event scheduled at `version` may still fire: exactly
    /// when nothing has cancelled it since.
    pub fn other_event_current(&self, version: u64) -> (r: bool)
        ensures
            r == (version == self.debounce_version),
    {
        version == self.debounce_version
    }
}

/// The registry of per-process accessibility observers.
pub struct ObserverRegistry {
    pids: Vec<i32>,
}

impl ObserverRegistry {
    /// The registered process ids.
    pub closed spec fn spec_pids(&self) -> Seq<i32> {
        self.pids@
    }

    /// `pid` is registered.
    pub open spec fn spec_registered(&self, pid: i32) -> bool {
        self.spec_pids().contains(pid)
    }

    /// An empty registry.
    pub fn new() -> (r: ObserverRegistry)
        ensures
            r.spec_pids() == Seq::<i32>::empty(),
    {
        let r = ObserverRegistry { pids: Vec::new() };
        proof {
            assert(r.pids@ =~= Seq::<i32>::empty());
        }
        r
    }

    /// Whether `pid` is registered.
    pub fn is_registered(&self, pid: i32) -> (r: bool)
        ensures
            r == self.spec_registered(pid),
    {
        let mut k: usize = 0;
        while k < self.pids.len()
            invariant
                k <= self.pids@.len(),
                forall|j: int| 0 <= j < k ==> self.pids@[j] != pid,
            decreases self.pids@.len() - k,
        {
            if self.pids[k] == pid {
                return true;
            }
            k = k + 1;
        }
        false
    }

    /// Record `pid` as registered (once).
    pub fn register_for_pid(&mut self, pid: i32)
        ensures
            final(self).spec_registered(pid),
            forall|o: i32| o != pid ==> final(self).spec_registered(o) == old(
                self,
            ).spec_registered(o),
    {
        if !self.is_registered(pid) {
            let ghost prev = self.pids@;
            self.pids.push(pid);
            proof {
                assert(self.pids@[prev.len() as int] == pid);
                assert forall|o: i32| o != pid implies final(self).spec_registered(o) == old(
                    self,
                ).spec_registered(o) by {
                    if old(self).spec_registered(o) {
                        let i = choose|i: int| 0 <= i < prev.len() && prev[i] == o;
                        assert(self.pids@[i] == o);
                    } else if final(self).spec_registered(o) {
                        let i = choose|i: int|
                            0 <= i < self.pids@.len() && self.pids@[i] == o;
                        assert(i < prev.len());
                        assert(prev[i] == o);
                    }
                }
            }
        }
    }

    /// Drop the observer registered for `pid`, if any.
    pub fn unregister_for_pid(&mut self, pid: i32)
        ensures
            !final(self).spec_registered(pid),
            forall|o: i32| o != pid ==> final(self).spec_registered(o) == old(
                self,
            ).spec_registered(o),
    {
        let mut out: Vec<i32> = Vec::new();
        let mut k: usize = 0;
        while k < self.pids.len()
            invariant
                k <= self.pids@.len(),
                forall|j: int| 0 <= j < out@.len() ==> out@[j] != pid,
                forall|o: i32|
                    o != pid ==> (out@.contains(o) <==> self.pids@.take(k as int).contains(o)),
            decreases self.pids@.len() - k,
        {
            let p = self.pids[k];
            let ghost prev_out = out@;
            let ghost t1 = self.pids@.take(k as int);
            let ghost t2 = self.pids@.take(k as int + 1);
            proof {
                assert(t2 =~= t1.push(self.pids@[k as int]));
            }
            if p != pid {
                out.push(p);
            }
            proof {
                assert forall|o: i32| o != pid implies (out@.contains(o) <==> t2.contains(
                    o,
                )) by {
                    if out@.contains(o) {
                        let i = choose|i: int| 0 <= i < out@.len() && out@[i] == o;
                        if i < prev_out.len() {
                            assert(prev_out[i] == o);
                            assert(prev_out.contains(o));
                            assert(t1.contains(o));
                            let j = choose|j: int| 0 <= j < t1.len() && t1[j] == o;
                            assert(t2[j] == o);
                            assert(t2.contains(o));
                        } else {
                            assert(out@[i] == self.pids@[k as int]);
                            assert(t2[k as int] == o);
                            assert(t2.contains(o));
                        }
                    }
                    if t2.contains(o) {
                        let i = choose|i: int| 0 <= i < t2.len() && t2[i] == o;
                        if i < k {
                            assert(t1[i] == o);
                            assert(t1.contains(o));
                            assert(prev_out.contains(o));
                            let j = choose|j: int| 0 <= j < prev_out.len() && prev_out[j] == o;
                            assert(prev_out[j] == o);
                            assert(out@[j] == prev_out[j]);
                            assert(out@.contains(o));
                        } else {
                            assert(self.pids@[k as int] == o);
                            assert(out@[prev_out.len() as int] == o);
                            assert(out@.contains(o));
                        }
                    }
                }
            }
            k = k + 1;
        }
        proof {
            assert(self.pids@.take(self.pids@.len() as int) =~= self.pids@);
        }
        self.pids = out;
    }

    /// Drop every registered observer.
    pub fn unregister_all(&mut self)
        ensures
            final(self).spec_pids() == Seq::<i32>::empty(),
    {
        self.pids.clear();
        proof {
            assert(self.pids@ =~= Seq::<i32>::empty());
        }
    }
}

} // verus!
