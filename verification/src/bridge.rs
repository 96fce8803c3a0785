//! The orchestrator's decision core: one object owning the tab registry and
//! the request correlator. The reader loop feeds every inbound event
//! through `handle_event`; the bus surface builds commands with
//! `begin_activate` / `begin_reset`, waits through `Correlator::poll`, and
//! turns the final poll outcome into its reply with `resolve_outcome`.
use vstd::prelude::*;

use crate::assoc::assoc_lookup;
use crate::codec::Command;
use crate::correlator::{next_token_value, Correlator, PollOutcome};
use crate::registry::{stored_attributes, EntryModel, Registry};
use crate::tabs::{merged, DBusTabInfoList, TabAttributes, TabEvent, TabId,
    tab_to_tuple, tuple_model, flattened};

verus! {

/// Why a blocking bus call failed.
pub enum SyncError {
    /// No matching reply arrived within the overall timeout.
    CorrelationTimeout,
    /// The extension answered the command with this error text.
    ExtensionReported(String),
}

/// What one inbound event did to the shared state.
#[derive(Debug, PartialEq, Eq, Structural)]
pub enum HandleOutcome {
    /// An update event merged attributes into the registry.
    Updated,
    /// A remove event; the flag says whether an entry was actually deleted,
    /// so the caller can log a miss.
    Removed(bool),
    /// A sync event recorded a completion for its waiter.
    Synced,
}

/// The token a sync event carries: its sequence number, or zero when the
/// field is absent.
pub open spec fn sync_token(e: crate::tabs::EventModel) -> u64 {
    match e.sequence_number {
        Some(t) => t,
        None => 0,
    }
}

/// The registry and correlator under one owner.
pub struct Bridge {
    pub registry: Registry,
    pub correlator: Correlator,
}

impl Bridge {
    /// Both halves keep their invariants.
    pub open spec fn wf(&self) -> bool {
        self.registry.wf() && self.correlator.wf()
    }

    /// A fresh bridge: no tabs known, counting tokens from zero, nothing
    /// pending.
    pub fn new() -> (r: Bridge)
        ensures
            r.wf(),
            r.registry@.len() == 0,
            r.correlator@.next_token == 0,
            r.correlator@.completions.len() == 0,
    {
        Bridge { registry: Registry::new(), correlator: Correlator::new() }
    }

    /// The current tab listing in bus shape, most recently updated first.
    pub fn list(&self) -> (r: DBusTabInfoList)
        requires
            self.wf(),
        ensures
            r@.len() == self.registry@.len(),
            forall|j: int|
                0 <= j < r@.len() ==> tuple_model(r@[j]) == flattened(
                    self.registry@[j].0,
                    self.registry@[j].1.attributes,
                ),
    {
        let snap = self.registry.snapshot_sorted();
        let mut r: DBusTabInfoList = Vec::new();
        let mut i: usize = 0;
        while i < snap.len()
            invariant
                0 <= i <= snap@.len(),
                r@.len() == i,
                snap@.len() == self.registry@.len(),
                forall|j: int|
                    0 <= j < snap@.len() ==> snap@[j].0 == self.registry@[j].0 && snap@[j].1@
                        == self.registry@[j].1.attributes,
                forall|j: int|
                    0 <= j < i ==> tuple_model(r@[j]) == flattened(
                        self.registry@[j].0,
                        self.registry@[j].1.attributes,
                    ),
            decreases snap@.len() - i,
        {
            let t = tab_to_tuple(&(snap[i].0, &snap[i].1));
            r.push(t);
            i = i + 1;
        }
        r
    }

    /// Build the command an `activate` call sends: the next token, the tab
    /// to raise, and the window title preface (an empty preface means
    /// none). The token counter advances; nothing else changes.
    pub fn begin_activate(&mut self, tab_id: TabId, title_preface: String) -> (c: Command)
        requires
            old(self).wf(),
        ensures
            final(self).wf(),
            c@.action == "activate"@,
            c@.tab_id == tab_id,
            c@.window_id is None,
            c@.window_title_preface == (if title_preface@.len() == 0 {
                Option::<Seq<char>>::None
            } else {
                Option::<Seq<char>>::Some(title_preface@)
            }),
            c@.sequence_number == old(self).correlator@.next_token,
            final(self).correlator@.next_token == next_token_value(c@.sequence_number),
            final(self).correlator@.completions == old(self).correlator@.completions,
            final(self).registry == old(self).registry,
    {
        let preface = crate::tabs::empty_to_none(title_preface);
        let token = self.correlator.generate_token();
        Command {
            action: String::from_str("activate"),
            tab_id,
            window_id: None,
            window_title_preface: preface,
            sequence_number: token,
        }
    }

    /// Build the command a `reset` call sends: like `begin_activate` with
    /// no title preface.
    pub fn begin_reset(&mut self, tab_id: TabId) -> (c: Command)
        requires
            old(self).wf(),
        ensures
            final(self).wf(),
            c@.action == "reset"@,
            c@.tab_id == tab_id,
            c@.window_id is None,
            c@.window_title_preface is None,
            c@.sequence_number == old(self).correlator@.next_token,
            final(self).correlator@.next_token == next_token_value(c@.sequence_number),
            final(self).correlator@.completions == old(self).correlator@.completions,
            final(self).registry == old(self).registry,
    {
        let token = self.correlator.generate_token();
        Command {
            action: String::from_str("reset"),
            tab_id,
            window_id: None,
            window_title_preface: None,
            sequence_number: token,
        }
    }

    /// Apply one inbound event, exactly as the reader loop does: a
    /// `remove` deletes the tab (a miss is reported, not an error), a
    /// `sync` records the completion under the event's token, and any
    /// other action is an update that merges the event's attributes and
    /// stamps them with `now`.
    pub fn handle_event(&mut self, e: TabEvent, now: u64) -> (r: HandleOutcome)
        requires
            old(self).wf(),
        ensures
            final(self).wf(),
            e@.action == "remove"@ ==> {
                &&& r == HandleOutcome::Removed(
                    assoc_lookup(old(self).registry@, e@.tab_id) is Some,
                )
                &&& assoc_lookup(final(self).registry@, e@.tab_id) is None
                &&& forall|k: TabId|
                    k != e@.tab_id ==> assoc_lookup(final(self).registry@, k) == assoc_lookup(
                        old(self).registry@,
                        k,
                    )
                &&& final(self).correlator == old(self).correlator
            },
            e@.action == "sync"@ ==> {
                &&& r == HandleOutcome::Synced
                &&& assoc_lookup(final(self).correlator@.completions, sync_token(e@)) == Some(
                    e@.error,
                )
                &&& forall|t: u64|
                    t != sync_token(e@) ==> assoc_lookup(
                        final(self).correlator@.completions,
                        t,
                    ) == assoc_lookup(old(self).correlator@.completions, t)
                &&& final(self).correlator@.next_token == old(self).correlator@.next_token
                &&& final(self).registry == old(self).registry
            },
            e@.action != "remove"@ && e@.action != "sync"@ ==> {
                &&& r == HandleOutcome::Updated
                &&& assoc_lookup(final(self).registry@, e@.tab_id) == Some(
                    EntryModel {
                        last_update: now,
                        attributes: merged(
                            crate::tabs::AttrsModel {
                                title: e@.title,
                                url: e@.url,
                                window_id: e@.window_id,
                            },
                            stored_attributes(old(self).registry@, e@.tab_id),
                        ),
                    },
                )
                &&& forall|k: TabId|
                    k != e@.tab_id ==> assoc_lookup(final(self).registry@, k) == assoc_lookup(
                        old(self).registry@,
                        k,
                    )
                &&& final(self).correlator == old(self).correlator
            },
    {
        proof {
            reveal_strlit("remove");
            reveal_strlit("sync");
        }
        let remove_action = String::from_str("remove");
        let sync_action = String::from_str("sync");
        if e.action == remove_action {
            proof {
                assert("remove"@.len() == 6);
                assert("sync"@.len() == 4);
                assert(e@.action != "sync"@);
            }
            let was_present = self.registry.remove(e.tab_info.tab_id);
            HandleOutcome::Removed(was_present)
        } else if e.action == sync_action {
            let token = match e.sequence_number {
                Some(t) => t,
                None => 0,
            };
            self.correlator.complete(token, e.error);
            HandleOutcome::Synced
        } else {
            let attributes = e.tab_info.attributes;
            proof {
                assert(attributes@ == (crate::tabs::AttrsModel {
                    title: e@.title,
                    url: e@.url,
                    window_id: e@.window_id,
                }));
            }
            self.registry.apply_update(e.tab_info.tab_id, attributes, now);
            HandleOutcome::Updated
        }
    }
}

/// Turn the outcome of one wait slice into the bus reply, if the wait is
/// over: success becomes the acknowledgment text, an extension-reported
/// error or a timeout becomes the matching failure, and a slice that only
/// says to keep waiting yields nothing yet.
pub fn resolve_outcome(o: PollOutcome) -> (r: Option<Result<String, SyncError>>)
    ensures
        match o {
            PollOutcome::Completed(e) => match e {
                None => r matches Some(res) && res matches Ok(msg) && msg@ == "done"@,
                Some(err) => r == Some(Result::<String, SyncError>::Err(
                    SyncError::ExtensionReported(err),
                )),
            },
            PollOutcome::TimedOut => r == Some(Result::<String, SyncError>::Err(
                SyncError::CorrelationTimeout,
            )),
            PollOutcome::KeepWaiting => r is None,
        },
{
    match o {
        PollOutcome::Completed(e) => match e {
            None => Some(Ok(String::from_str("done"))),
            Some(err) => Some(Err(SyncError::ExtensionReported(err))),
        },
        PollOutcome::TimedOut => Some(Err(SyncError::CorrelationTimeout)),
        PollOutcome::KeepWaiting => None,
    }
}

} // verus!
