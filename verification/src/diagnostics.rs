use std::time::{Duration, Instant};

use vstd::prelude::*;

use crate::graphobject::GraphId;

verus! {

#[verifier::external_type_specification]
#[verifier::external_body]
pub struct ExInstant(Instant);

/// Reads the clock: calls `std::time::Instant::now`. Nothing is claimed of
/// the instant it returns.
#[verifier::external_body]
fn instant_now() -> (t: Instant) {
    Instant::now()
}

/// The time elapsed from `issued` to `now`: calls
/// `std::time::Instant::duration_since`, which gives zero where `issued` is
/// later than `now`. Nothing is claimed of the duration, which depends on the
/// clock readings it is given.
#[verifier::external_body]
fn duration_since(now: &Instant, issued: &Instant) -> (d: Duration) {
    now.duration_since(*issued)
}

/// The length of `d` in nanoseconds: calls `Duration::as_nanos`. Nothing is
/// claimed of the number.
#[verifier::external_body]
fn duration_nanos(d: Duration) -> (n: u128) {
    d.as_nanos()
}

/// How closely a diagnostic concerns a graph item.
#[derive(Clone, Copy, Debug, PartialEq, Eq, Structural)]
pub enum DiagnosticRelevance {
    Primary,
    Secondary,
}

/// What a diagnostic says.
#[derive(Clone, Copy, Debug)]
pub enum DiagnosticMessage {
    GenericWarning((GraphId, DiagnosticRelevance)),
}

impl DiagnosticMessage {
    /// How the message concerns `graph_id`, if it does.
    pub open spec fn spec_involves(self, graph_id: GraphId) -> Option<DiagnosticRelevance> {
        match self {
            DiagnosticMessage::GenericWarning((id, r)) => if id == graph_id {
                Some(r)
            } else {
                None
            },
        }
    }

    /// How the message concerns `graph_id`, if it does.
    pub fn involves(&self, graph_id: GraphId) -> (r: Option<DiagnosticRelevance>)
        ensures
            r == self.spec_involves(graph_id),
    {
        match self {
            DiagnosticMessage::GenericWarning((id, r)) => {
                if *id == graph_id {
                    Some(*r)
                } else {
                    None
                }
            },
        }
    }
}

/// A message together with the time it was issued.
pub struct Diagnostic {
    message: DiagnosticMessage,
    time_issued: Instant,
}

impl Diagnostic {
    pub closed spec fn spec_message(self) -> DiagnosticMessage {
        self.message
    }

    /// A diagnostic with the given message, issued now.
    pub fn new(message: DiagnosticMessage) -> (d: Diagnostic)
        ensures
            d.spec_message() == message,
    {
        Diagnostic { message, time_issued: instant_now() }
    }

    /// What the diagnostic says.
    pub fn message(&self) -> (m: &DiagnosticMessage)
        ensures
            *m == self.spec_message(),
    {
        &self.message
    }
}

/// The elements of `s` whose entry in `keep` is true, in order.
pub open spec fn kept_by<A>(s: Seq<A>, keep: Seq<bool>) -> Seq<A>
    decreases s.len(),
{
    if s.len() == 0 || keep.len() != s.len() {
        Seq::empty()
    } else if keep.last() {
        kept_by(s.drop_last(), keep.drop_last()).push(s.last())
    } else {
        kept_by(s.drop_last(), keep.drop_last())
    }
}

/// For each age, whether it is at most `max_nanos`.
pub open spec fn fresh_flags(ages: Seq<u128>, max_nanos: u128) -> Seq<bool> {
    Seq::new(ages.len(), |k: int| ages[k] <= max_nanos)
}

/// What is kept has as many entries as there are flags set.
proof fn lemma_kept_len<A, B>(s: Seq<A>, t: Seq<B>, keep: Seq<bool>)
    requires
        s.len() == keep.len(),
        t.len() == keep.len(),
    ensures
        kept_by(s, keep).len() == kept_by(t, keep).len(),
    decreases s.len(),
{
    if s.len() > 0 {
        lemma_kept_len(s.drop_last(), t.drop_last(), keep.drop_last());
    }
}

/// Aging out keeps every diagnostic whose own age is within the limit and
/// drops every one whose own age is beyond it: a list of young diagnostics
/// stays whole, a list of old ones empties, and a young diagnostic added
/// after the others is kept after what is kept of them.
pub proof fn law_fresh_kept_stale_dropped(s: Seq<Diagnostic>, ages: Seq<u128>, max_nanos: u128, d: Diagnostic, age: u128)
    requires
        ages.len() == s.len(),
    ensures
        (forall|k: int| 0 <= k < ages.len() ==> ages[k] <= max_nanos) ==> kept_by(
            s,
            fresh_flags(ages, max_nanos),
        ) == s,
        (forall|k: int| 0 <= k < ages.len() ==> ages[k] > max_nanos) ==> kept_by(
            s,
            fresh_flags(ages, max_nanos),
        ) == Seq::<Diagnostic>::empty(),
        kept_by(s.push(d), fresh_flags(ages.push(age), max_nanos)) == if age <= max_nanos {
            kept_by(s, fresh_flags(ages, max_nanos)).push(d)
        } else {
            kept_by(s, fresh_flags(ages, max_nanos))
        },
    decreases s.len(),
{
    let f = fresh_flags(ages, max_nanos);
    let g = fresh_flags(ages.push(age), max_nanos);
    assert(s.push(d).drop_last() =~= s);
    assert(g.drop_last() =~= f);
    if s.len() > 0 {
        let s0 = s.drop_last();
        let a0 = ages.drop_last();
        assert(f.drop_last() =~= fresh_flags(a0, max_nanos));
        law_fresh_kept_stale_dropped(s0, a0, max_nanos, d, age);
        if forall|k: int| 0 <= k < ages.len() ==> ages[k] <= max_nanos {
            assert forall|k: int| 0 <= k < a0.len() implies a0[k] <= max_nanos by {
                assert(a0[k] == ages[k]);
            }
            assert(f.last());
            assert(s0.push(s.last()) =~= s);
        }
        if forall|k: int| 0 <= k < ages.len() ==> ages[k] > max_nanos {
            assert forall|k: int| 0 <= k < a0.len() implies a0[k] > max_nanos by {
                assert(a0[k] == ages[k]);
            }
            assert(!f.last());
        }
    }
}

/// Measured against the same clock reading, the diagnostics that a first
/// pass keeps are all young enough, so a second pass with the same limit
/// keeps them all: aging out twice at one instant is aging out once.
pub proof fn law_retain_fresh_twice(s: Seq<Diagnostic>, ages: Seq<u128>, max_nanos: u128)
    requires
        ages.len() == s.len(),
    ensures
        kept_by(ages, fresh_flags(ages, max_nanos)).len() == kept_by(s, fresh_flags(ages, max_nanos)).len(),
        kept_by(
            kept_by(s, fresh_flags(ages, max_nanos)),
            fresh_flags(kept_by(ages, fresh_flags(ages, max_nanos)), max_nanos),
        ) == kept_by(s, fresh_flags(ages, max_nanos)),
    decreases s.len(),
{
    let f = fresh_flags(ages, max_nanos);
    lemma_kept_len(ages, s, f);
    if s.len() > 0 {
        let s0 = s.drop_last();
        let a0 = ages.drop_last();
        assert(f.drop_last() =~= fresh_flags(a0, max_nanos));
        law_retain_fresh_twice(s0, a0, max_nanos);
        let k0 = kept_by(s0, fresh_flags(a0, max_nanos));
        let b0 = kept_by(a0, fresh_flags(a0, max_nanos));
        if ages.last() <= max_nanos {
            let k1 = k0.push(s.last());
            let b1 = b0.push(ages.last());
            assert(kept_by(s, f) == k1);
            assert(kept_by(ages, f) == b1);
            let g = fresh_flags(b1, max_nanos);
            assert(g.drop_last() =~= fresh_flags(b0, max_nanos));
            assert(k1.drop_last() =~= k0);
            assert(g.last());
            assert(kept_by(k1, g) == kept_by(k0, fresh_flags(b0, max_nanos)).push(s.last()));
        } else {
            assert(kept_by(s, f) == k0);
            assert(kept_by(ages, f) == b0);
        }
    }
}

/// The age of `d` at the clock reading `now`: the time from its issue to
/// `now`, in nanoseconds.
pub fn diagnostic_age(now: &Instant, d: &Diagnostic) -> u128 {
    duration_nanos(duration_since(now, &d.time_issued))
}

/// `age` is the age of `d` at the clock reading `now`: a result that
/// measuring `d` against `now` can give.
pub open spec fn is_age_at(now: Instant, d: Diagnostic, age: u128) -> bool {
    call_ensures(diagnostic_age, (&now, &d), age)
}

/// `ages` holds, position by position, the age of each diagnostic of `s`
/// at the one clock reading `now`.
pub open spec fn ages_at(now: Instant, s: Seq<Diagnostic>, ages: Seq<u128>) -> bool {
    &&& ages.len() == s.len()
    &&& forall|k: int| 0 <= k < ages.len() ==> #[trigger] is_age_at(now, s[k], ages[k])
}

/// The age of each diagnostic at the clock reading `now`, in nanoseconds,
/// in the order of the diagnostics: each diagnostic measured by itself.
pub fn diagnostic_ages(diagnostics: &Vec<Diagnostic>, now: &Instant) -> (ages: Vec<u128>)
    ensures
        ages_at(*now, diagnostics@, ages@),
{
    let mut ages: Vec<u128> = Vec::new();
    let mut k: usize = 0;
    while k < diagnostics.len()
        invariant
            k <= diagnostics@.len(),
            ages@.len() == k,
            forall|j: int| 0 <= j < k ==> #[trigger] is_age_at(*now, diagnostics@[j], ages@[j]),
        decreases diagnostics.len() - k,
    {
        let measure = diagnostic_age;
        let age = measure(now, &diagnostics[k]);
        ages.push(age);
        proof {
            assert(is_age_at(*now, diagnostics@[k as int], ages@[k as int]));
        }
        k = k + 1;
    }
    ages
}

/// The diagnostics whose age, given at the same position of `ages`, is at
/// most `max_nanos`, in their order.
pub fn retain_fresh(diagnostics: Vec<Diagnostic>, ages: &Vec<u128>, max_nanos: u128) -> (r: Vec<
    Diagnostic,
>)
    requires
        ages@.len() == diagnostics@.len(),
    ensures
        r@ == kept_by(diagnostics@, fresh_flags(ages@, max_nanos)),
{
    let ghost s = diagnostics@;
    let ghost flags = fresh_flags(ages@, max_nanos);
    let mut rest = diagnostics;
    let mut kept: Vec<Diagnostic> = Vec::new();
    let n: usize = ages.len();
    let mut k: usize = 0;
    while rest.len() > 0
        invariant
            s.len() == ages@.len(),
            s.len() == n,
            flags == fresh_flags(ages@, max_nanos),
            k <= s.len(),
            k + rest@.len() == s.len(),
            rest@ == s.subrange(k as int, s.len() as int),
            kept@ == kept_by(s.take(k as int), flags.take(k as int)),
        decreases rest.len(),
    {
        let d = rest.remove(0);
        proof {
            assert(d == s[k as int]);
        }
        if ages[k] <= max_nanos {
            kept.push(d);
        }
        proof {
            let t = s.take(k + 1);
            let f = flags.take(k + 1);
            assert(t.drop_last() =~= s.take(k as int));
            assert(f.drop_last() =~= flags.take(k as int));
            assert(t.last() == s[k as int]);
            assert(f.last() == (ages@[k as int] <= max_nanos));
            assert(rest@ =~= s.subrange(k + 1, s.len() as int));
        }
        k = k + 1;
    }
    proof {
        assert(s.take(k as int) =~= s);
        assert(flags.take(k as int) =~= flags);
    }
    kept
}

/// The relevance to `graph_id` of the diagnostics `s`: primary if any of
/// them concerns it primarily, secondary if any concerns it otherwise,
/// and none if none concerns it.
pub open spec fn warning_level(s: Seq<Diagnostic>, graph_id: GraphId) -> Option<DiagnosticRelevance> {
    if exists|k: int|
        0 <= k < s.len() && #[trigger] s[k].spec_message().spec_involves(graph_id) == Some(
            DiagnosticRelevance::Primary,
        ) {
        Some(DiagnosticRelevance::Primary)
    } else if exists|k: int| 0 <= k < s.len() && (#[trigger] s[k].spec_message().spec_involves(graph_id)) is Some {
        Some(DiagnosticRelevance::Secondary)
    } else {
        None
    }
}

/// All diagnostics issued and not yet aged out, oldest first.
pub struct AllDiagnostics {
    diagnostics: Vec<Diagnostic>,
}

impl View for AllDiagnostics {
    type V = Seq<Diagnostic>;

    closed spec fn view(&self) -> Seq<Diagnostic> {
        self.diagnostics@
    }
}

impl AllDiagnostics {
    /// No diagnostics.
    pub fn new() -> (d: AllDiagnostics)
        ensures
            d@ == Seq::<Diagnostic>::empty(),
    {
        AllDiagnostics { diagnostics: Vec::new() }
    }

    /// Adds a diagnostic after the others.
    pub fn push_diagnostic(&mut self, diagnostic: Diagnostic)
        ensures
            final(self)@ == old(self)@.push(diagnostic),
    {
        self.diagnostics.push(diagnostic);
    }

    /// The diagnostics, oldest first.
    pub fn get_diagnostics(&self) -> (d: &[Diagnostic])
        ensures
            d@ == self@,
    {
        self.diagnostics.as_slice()
    }

    /// Drops every diagnostic issued longer than `max_age_nanos`
    /// nanoseconds ago, keeping the others in order. It reads the clock
    /// once, measures the age of each diagnostic against that reading and
    /// hands the ages to `retain_fresh`. Only the ages rest on the clock.
    pub fn age_out(&mut self, max_age_nanos: u128)
        ensures
            exists|now: Instant, ages: Seq<u128>|
                #[trigger] ages_at(now, old(self)@, ages) && final(self)@ == kept_by(
                    old(self)@,
                    fresh_flags(ages, max_age_nanos),
                ),
    {
        let now = instant_now();
        let mut all: Vec<Diagnostic> = Vec::new();
        std::mem::swap(&mut all, &mut self.diagnostics);
        let ages = diagnostic_ages(&all, &now);
        let ghost measured = ages@;
        proof {
            assert(all@ == old(self)@);
            assert(ages_at(now, old(self)@, measured));
        }
        self.diagnostics = retain_fresh(all, &ages, max_age_nanos);
        proof {
            assert(ages_at(now, old(self)@, measured) && self@ == kept_by(
                old(self)@,
                fresh_flags(measured, max_age_nanos),
            ));
        }
    }

    /// How the diagnostics concern `graph_id`: primary if any concerns it
    /// primarily, else secondary if any concerns it, else none.
    pub fn graph_item_has_warning(&self, graph_id: GraphId) -> (r: Option<DiagnosticRelevance>)
        ensures
            r == warning_level(self@, graph_id),
    {
        let mut r: Option<DiagnosticRelevance> = None;
        let mut k: usize = 0;
        while k < self.diagnostics.len()
            invariant
                k <= self.diagnostics@.len(),
                r == warning_level(self.diagnostics@.take(k as int), graph_id),
            decreases self.diagnostics.len() - k,
        {
            let ghost before = self.diagnostics@.take(k as int);
            let ghost after = self.diagnostics@.take(k + 1);
            if let Some(rr) = self.diagnostics[k].message().involves(graph_id) {
                if rr == DiagnosticRelevance::Primary || r.is_none() {
                    r = Some(rr);
                }
            }
            proof {
                assert(after == before.push(self.diagnostics@[k as int]));
                assert forall|j: int| 0 <= j < before.len() implies after[j] == #[trigger] before[j] by {}
                let m = self.diagnostics@[k as int].spec_message().spec_involves(graph_id);
                assert(after[before.len() as int].spec_message().spec_involves(graph_id) == m);
                if exists|j: int| 0 <= j < after.len() && #[trigger] after[j].spec_message().spec_involves(graph_id) == Some(DiagnosticRelevance::Primary) {
                    let j = choose|j: int| 0 <= j < after.len() && #[trigger] after[j].spec_message().spec_involves(graph_id) == Some(DiagnosticRelevance::Primary);
                    if j < before.len() {
                        assert(before[j].spec_message().spec_involves(graph_id) == Some(DiagnosticRelevance::Primary));
                    }
                } else if exists|j: int| 0 <= j < after.len() && (#[trigger] after[j].spec_message().spec_involves(graph_id)) is Some {
                    let j = choose|j: int| 0 <= j < after.len() && (#[trigger] after[j].spec_message().spec_involves(graph_id)) is Some;
                    if j < before.len() {
                        assert((before[j].spec_message().spec_involves(graph_id)) is Some);
                    }
                    assert forall|i: int| 0 <= i < before.len() implies #[trigger] before[i].spec_message().spec_involves(graph_id) != Some(DiagnosticRelevance::Primary) by {
                        assert(after[i] == before[i]);
                    }
                } else {
                    assert forall|i: int| 0 <= i < before.len() implies !((#[trigger] before[i].spec_message().spec_involves(graph_id)) is Some) by {
                        assert(after[i] == before[i]);
                    }
                }
            }
            k = k + 1;
        }
        proof {
            assert(self.diagnostics@.take(k as int) =~= self.diagnostics@);
        }
        r
    }
}

} // verus!
