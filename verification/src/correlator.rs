//! The request correlator: a token generator whose values wrap modulo the
//! largest integer every numeric consumer on the wire represents exactly,
//! and a completion table that matches each outbound command to the one
//! asynchronous reply (or timeout) that resolves it.
use vstd::prelude::*;

use vstd::arithmetic::div_mod::{lemma_add_mod_noop, lemma_mod_division_less_than_divisor,
    lemma_mod_sub_multiples_vanish, lemma_small_mod};

use crate::assoc::{assoc_lookup, lemma_lookup_at_index, lemma_lookup_has, lemma_lookup_insert,
    lemma_lookup_remove, lemma_lookup_update, unique_keys};
use crate::tabs::opt_string_view;

verus! {

/// Tokens wrap modulo this bound, the largest integer the least capable
/// numeric consumer on the wire represents with full precision.
pub const TOKEN_WRAP: u64 = 999999999999999;

/// How long a blocking bus call waits in all for its reply.
pub const OVERALL_TIMEOUT_MS: u64 = 5000;

/// The length of one bounded wait slice inside that overall wait.
pub const WAIT_SLICE_MS: u64 = 3000;

/// The token value that follows `t`.
pub open spec fn next_token_value(t: u64) -> u64 {
    (((t + 1) as int) % (TOKEN_WRAP as int)) as u64
}

/// The `k`-th token drawn by a generator that started at `start`.
pub open spec fn token_at(start: u64, k: nat) -> u64 {
    (((start + k) as int) % (TOKEN_WRAP as int)) as u64
}

/// What one bounded wait slice decides for a pending token.
pub enum PollOutcome {
    /// The matching reply arrived; its optional error text is carried along.
    Completed(Option<String>),
    /// The overall timeout elapsed with no reply recorded.
    TimedOut,
    /// No reply yet and time remains: wait another slice.
    KeepWaiting,
}

/// Mathematical model of the correlator: the next token to hand out and the
/// recorded completions, each an optional error text keyed by token.
pub struct CorrelatorModel {
    pub next_token: u64,
    pub completions: Seq<(u64, Option<Seq<char>>)>,
}

/// The request correlator state: the shared token counter and the table of
/// completions that have arrived but have not yet been consumed by their
/// waiter.
pub struct Correlator {
    next_token: u64,
    completions: Vec<(u64, Option<String>)>,
}

impl View for Correlator {
    type V = CorrelatorModel;

    closed spec fn view(&self) -> CorrelatorModel {
        CorrelatorModel {
            next_token: self.next_token,
            completions: Seq::new(
                self.completions@.len(),
                |i: int| (self.completions@[i].0, opt_string_view(self.completions@[i].1)),
            ),
        }
    }
}

impl Correlator {
    /// The counter stays below the wrap bound and no token has two records.
    pub open spec fn wf(&self) -> bool {
        self@.next_token < TOKEN_WRAP && unique_keys(self@.completions)
    }

    /// A fresh correlator: counting from zero, nothing pending.
    pub fn new() -> (r: Correlator)
        ensures
            r.wf(),
            r@.next_token == 0,
            r@.completions.len() == 0,
    {
        let r = Correlator { next_token: 0, completions: Vec::new() };
        assert(r@.completions =~= Seq::<(u64, Option<Seq<char>>)>::empty());
        r
    }

    /// The index holding `token`, if any.
    fn position_of(&self, token: u64) -> (r: Option<usize>)
        ensures
            match r {
                Some(i) => i < self@.completions.len() && self@.completions[i as int].0 == token,
                None => forall|i: int|
                    0 <= i < self@.completions.len() ==> self@.completions[i].0 != token,
            },
    {
        let mut i: usize = 0;
        while i < self.completions.len()
            invariant
                0 <= i <= self.completions@.len(),
                forall|j: int| 0 <= j < i ==> self@.completions[j].0 != token,
            decreases self.completions@.len() - i,
        {
            if self.completions[i].0 == token {
                return Some(i);
            }
            i = i + 1;
        }
        None
    }

    /// Draw the next correlation token: the counter's current value, after
    /// which the counter advances by one, wrapping modulo `TOKEN_WRAP`.
    pub fn generate_token(&mut self) -> (t: u64)
        requires
            old(self).wf(),
        ensures
            final(self).wf(),
            t == old(self)@.next_token,
            final(self)@.next_token == next_token_value(t),
            final(self)@.completions == old(self)@.completions,
    {
        let t = self.next_token;
        if t + 1 == TOKEN_WRAP {
            self.next_token = 0;
        } else {
            self.next_token = t + 1;
        }
        proof {
            if t + 1 == TOKEN_WRAP {
                assert((TOKEN_WRAP as int) % (TOKEN_WRAP as int) == 0) by {
                    lemma_small_mod(0, TOKEN_WRAP as nat);
                    lemma_mod_sub_multiples_vanish(TOKEN_WRAP as int, TOKEN_WRAP as int);
                }
            } else {
                lemma_small_mod((t + 1) as nat, TOKEN_WRAP as nat);
            }
        }
        t
    }

    /// Record the reply for `token`: an absent error text means success, a
    /// present one carries the extension's message. A second reply for the
    /// same pending token overwrites the first.
    pub fn complete(&mut self, token: u64, error: Option<String>)
        requires
            old(self).wf(),
        ensures
            final(self).wf(),
            final(self)@.next_token == old(self)@.next_token,
            assoc_lookup(final(self)@.completions, token) == Some(opt_string_view(error)),
            forall|t: u64|
                t != token ==> assoc_lookup(final(self)@.completions, t) == assoc_lookup(
                    old(self)@.completions,
                    t,
                ),
    {
        let ghost s0 = self@.completions;
        let pos = self.position_of(token);
        match pos {
            Some(i) => {
                self.completions[i] = (token, error);
                proof {
                    assert(self@.completions =~= s0.update(
                        i as int,
                        (s0[i as int].0, opt_string_view(error)),
                    ));
                    assert forall|t: u64| assoc_lookup(self@.completions, t) == (if t == token {
                        Some(opt_string_view(error))
                    } else {
                        assoc_lookup(s0, t)
                    }) by {
                        lemma_lookup_update(s0, i as int, opt_string_view(error), t);
                    }
                }
            },
            None => {
                self.completions.push((token, error));
                proof {
                    let p = (token, opt_string_view(error));
                    assert(self@.completions =~= s0.insert(s0.len() as int, p));
                    assert forall|t: u64| assoc_lookup(self@.completions, t) == (if t == token {
                        Some(opt_string_view(error))
                    } else {
                        assoc_lookup(s0, t)
                    }) by {
                        lemma_lookup_insert(s0, s0.len() as int, p, t);
                    }
                    s0.insert_ensures(s0.len() as int, p);
                }
            },
        }
    }

    /// One bounded wait slice for `token`, taken after `elapsed_ms` of the
    /// overall `timeout_ms` have passed: a recorded completion is consumed
    /// (each token resolves exactly once) and returned; with none recorded,
    /// the wait either times out or continues for another slice.
    pub fn poll(&mut self, token: u64, elapsed_ms: u64, timeout_ms: u64) -> (r: PollOutcome)
        requires
            old(self).wf(),
        ensures
            final(self).wf(),
            final(self)@.next_token == old(self)@.next_token,
            match assoc_lookup(old(self)@.completions, token) {
                Some(e) => {
                    &&& r matches PollOutcome::Completed(err) && opt_string_view(err) == e
                    &&& assoc_lookup(final(self)@.completions, token) is None
                    &&& forall|t: u64|
                        t != token ==> assoc_lookup(final(self)@.completions, t) == assoc_lookup(
                            old(self)@.completions,
                            t,
                        )
                },
                None => {
                    &&& final(self)@.completions == old(self)@.completions
                    &&& r == (if elapsed_ms > timeout_ms {
                        PollOutcome::TimedOut
                    } else {
                        PollOutcome::KeepWaiting
                    })
                },
            },
    {
        let ghost s0 = self@.completions;
        let pos = self.position_of(token);
        match pos {
            Some(i) => {
                proof {
                    lemma_lookup_at_index(s0, i as int);
                }
                let entry = self.completions.remove(i);
                proof {
                    assert(self@.completions =~= s0.remove(i as int));
                    assert forall|t: u64| assoc_lookup(self@.completions, t) == (if t == token {
                        Option::<Option<Seq<char>>>::None
                    } else {
                        assoc_lookup(s0, t)
                    }) by {
                        lemma_lookup_remove(s0, i as int, t);
                    }
                }
                PollOutcome::Completed(entry.1)
            },
            None => {
                proof {
                    lemma_lookup_has(s0, token);
                }
                if elapsed_ms > timeout_ms {
                    PollOutcome::TimedOut
                } else {
                    PollOutcome::KeepWaiting
                }
            },
        }
    }
}

/// A reply resolves its waiter exactly once: after a successful completion
/// is recorded for a token, the next wait slice for that token succeeds and
/// consumes the record, and the slice after that finds nothing, so it can
/// only keep waiting for a fresh reply or time out. Verus derives this from
/// the contracts of `complete` and `poll` alone.
pub fn completion_resolves_once(c: &mut Correlator, token: u64, elapsed_ms: u64, timeout_ms: u64)
    -> (r: (PollOutcome, PollOutcome))
    requires
        old(c).wf(),
    ensures
        final(c).wf(),
        r.0 matches PollOutcome::Completed(e) && e is None,
        elapsed_ms <= timeout_ms ==> r.1 is KeepWaiting,
        elapsed_ms > timeout_ms ==> r.1 is TimedOut,
{
    c.complete(token, None);
    let first = c.poll(token, elapsed_ms, timeout_ms);
    let second = c.poll(token, elapsed_ms, timeout_ms);
    (first, second)
}

/// Token generation is monotone modulo the wrap bound: each draw yields the
/// previous token plus one, reduced modulo `TOKEN_WRAP`.
pub proof fn lemma_token_sequence_step(start: u64, k: nat)
    requires
        start < TOKEN_WRAP,
    ensures
        token_at(start, k + 1) == next_token_value(token_at(start, k)),
{
    let w = TOKEN_WRAP as int;
    let a = (start + k) as int;
    lemma_mod_division_less_than_divisor(a, w);
    lemma_add_mod_noop(a, 1, w);
    lemma_small_mod(1, w as nat);
    assert((a + 1) % w == ((a % w) + 1int % w) % w);
}

/// Within one wrap period a generator never hands out the same token twice.
pub proof fn lemma_tokens_distinct(start: u64, i: nat, j: nat)
    requires
        start < TOKEN_WRAP,
        i < j,
        j - i < TOKEN_WRAP,
    ensures
        token_at(start, i) != token_at(start, j),
{
    let w = TOKEN_WRAP as int;
    let a = (start + i) as int;
    let d = (j - i) as int;
    if token_at(start, i) == token_at(start, j) {
        lemma_add_mod_noop(a, d, w);
        lemma_small_mod(d as nat, w as nat);
        lemma_mod_division_less_than_divisor(a, w);
        let r = a % w;
        assert((start + j) as int == a + d);
        assert((a + d) % w == (r + d) % w);
        if r + d < w {
            lemma_small_mod((r + d) as nat, w as nat);
        } else {
            lemma_mod_sub_multiples_vanish((r + d) as int, w);
            lemma_small_mod((r + d - w) as nat, w as nat);
        }
    }
}

} // verus!
