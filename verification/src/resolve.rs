//! The provider fallback selector: given candidates in priority order, it
//! probes one at a time and resolves to the first whose existence probe
//! succeeds; a failed probe is skipped, never fatal, and only when every
//! candidate has failed does resolution fail with an explicit no-source
//! outcome.

use vstd::prelude::*;

verus! {

/// What one existence probe of a candidate produced: the resolved URL on
/// success, or nothing — an error or a non-success response are both mere
/// skips.
pub enum ProbeOutcome {
    /// The candidate can serve the track; this is its resolved URL.
    Resolved(String),
    /// The probe failed or answered without success; the candidate is
    /// skipped.
    Unavailable,
}

/// The selector's failure: no candidate answered its existence probe.
#[derive(Clone, Copy, Debug, PartialEq, Eq, Structural)]
pub enum ResolveError {
    /// Every candidate was probed and none succeeded.
    NoSource,
}

/// What the driver of a resolution does next.
pub enum ResolveStep {
    /// Probe the candidate at this index (candidates are numbered in
    /// priority order, highest first).
    Probe(usize),
    /// Every candidate has been tried and failed.
    NoSource,
}

/// The index of the first successful probe in a sequence of outcomes, if
/// any.
pub open spec fn first_hit(outcomes: Seq<ProbeOutcome>) -> Option<int>
    decreases outcomes.len(),
{
    if outcomes.len() == 0 {
        None
    } else if outcomes[0] is Resolved {
        Some(0int)
    } else {
        match first_hit(outcomes.drop_first()) {
            None => None,
            Some(i) => Some(i + 1),
        }
    }
}

/// When every outcome before `i` is a failure, the first hit is `i`
/// exactly when the outcome at `i` succeeds; and when every outcome is a
/// failure, there is no hit at all.
pub proof fn lemma_first_hit_after_failures(outcomes: Seq<ProbeOutcome>, i: int)
    requires
        0 <= i <= outcomes.len(),
        forall|j: int| 0 <= j < i ==> !(#[trigger] outcomes[j] is Resolved),
    ensures
        i < outcomes.len() && outcomes[i] is Resolved ==> first_hit(outcomes) == Some(i),
        i == outcomes.len() ==> first_hit(outcomes) is None,
    decreases i,
{
    if i == 0 {
        if 0 < outcomes.len() && outcomes[0] is Resolved {
        } else if outcomes.len() == 0 {
        }
    } else {
        assert(!(outcomes[0] is Resolved));
        assert(forall|j: int|
            0 <= j < i - 1 ==> #[trigger] outcomes.drop_first()[j] == outcomes[j + 1]);
        lemma_first_hit_after_failures(outcomes.drop_first(), i - 1);
        if i < outcomes.len() && outcomes[i] is Resolved {
            assert(outcomes.drop_first()[i - 1] is Resolved);
        }
    }
}

/// The lazy resolution state: how many candidates have been probed and
/// found unavailable so far. The driver asks `next_step` which candidate
/// to probe, performs the probe itself, and reports a failure back with
/// `record_failure`; the first success ends the resolution.
pub struct Resolver {
    tried: usize,
}

impl Resolver {
    /// How many candidates have been probed and skipped.
    pub closed spec fn tried(self) -> int {
        self.tried as int
    }

    /// A resolution that has not probed anything yet.
    pub fn new() -> (r: Resolver)
        ensures
            r.tried() == 0,
    {
        Resolver { tried: 0 }
    }

    /// Which candidate to probe next, out of `candidate_count` of them:
    /// the first one not yet found unavailable, or the explicit no-source
    /// outcome once all have failed.
    pub fn next_step(&self, candidate_count: usize) -> (s: ResolveStep)
        ensures
            self.tried() < candidate_count ==> s == ResolveStep::Probe(self.tried() as usize),
            self.tried() >= candidate_count ==> s == ResolveStep::NoSource,
    {
        if self.tried < candidate_count {
            ResolveStep::Probe(self.tried)
        } else {
            ResolveStep::NoSource
        }
    }

    /// Records that the candidate just probed is unavailable, moving on to
    /// the next one.
    pub fn record_failure(&mut self)
        requires
            old(self).tried() < usize::MAX,
        ensures
            final(self).tried() == old(self).tried() + 1,
    {
        self.tried = self.tried + 1;
    }
}

/// Resolves from the outcomes the probes produced, trying candidates
/// strictly in order through the `Resolver` steps: the result is the URL
/// of the first successful probe, and the explicit no-source error exactly
/// when every probe failed. Earlier failures never surface.
pub fn resolve_from(outcomes: &Vec<ProbeOutcome>) -> (r: Result<String, ResolveError>)
    ensures
        match first_hit(outcomes@) {
            Some(i) => {
                &&& r matches Ok(url) && outcomes@[i] matches ProbeOutcome::Resolved(u) && url@
                    == u@
            },
            None => r == Err::<String, ResolveError>(ResolveError::NoSource),
        },
{
    let mut resolver = Resolver::new();
    loop
        invariant
            0 <= resolver.tried() <= outcomes@.len(),
            forall|j: int| 0 <= j < resolver.tried() ==> !(#[trigger] outcomes@[j] is Resolved),
        ensures
            match first_hit(outcomes@) {
                Some(i) => resolver.tried() == i && 0 <= i < outcomes@.len() && outcomes@[i]
                    is Resolved,
                None => resolver.tried() == outcomes@.len(),
            },
        decreases outcomes@.len() - resolver.tried(),
    {
        match resolver.next_step(outcomes.len()) {
            ResolveStep::Probe(i) => {
                match &outcomes[i] {
                    ProbeOutcome::Resolved(_) => {
                        proof {
                            lemma_first_hit_after_failures(outcomes@, resolver.tried());
                        }
                        break ;
                    },
                    ProbeOutcome::Unavailable => {
                        resolver.record_failure();
                    },
                }
            },
            ResolveStep::NoSource => {
                proof {
                    lemma_first_hit_after_failures(outcomes@, resolver.tried());
                }
                break ;
            },
        }
    }
    if resolver.tried < outcomes.len() {
        match &outcomes[resolver.tried] {
            ProbeOutcome::Resolved(url) => Ok(url.clone()),
            ProbeOutcome::Unavailable => {
                proof {
                    assert(false);
                }
                Err(ResolveError::NoSource)
            },
        }
    } else {
        Err(ResolveError::NoSource)
    }
}

} // verus!
