use vstd::prelude::*;

verus! {

/// Samples per second assumed when the caller names no rate.
pub const DEFAULT_SAMPLE_RATE: usize = 48000;

/// One block of audio as it arrives at the engine, tagged with its role.
#[derive(Debug)]
pub enum Tagged<T> {
    /// Samples that were played out.
    Reference(Vec<T>),
    /// Samples that a microphone recorded.
    Captured(Vec<T>),
    /// The stream is over; nothing after it is processed.
    End,
}

/// Errors that the engine reports.
#[derive(Debug, Clone, Copy, PartialEq, Eq, Structural)]
pub enum EngineError {
    /// A transform was asked for on zero samples.
    InvalidInput,
    /// A correlation was due while one of the two buffers was empty.
    EmptyBuffer,
    /// The queue feeding the engine went away before `End` arrived.
    StreamClosedUnexpectedly,
    /// A sample rate or a trigger threshold of zero.
    InvalidConfig,
}

/// The two buffers handed out when the trigger fires.
#[derive(Debug)]
pub struct Batch<T> {
    pub reference: Vec<T>,
    pub captured: Vec<T>,
}

/// What one call of `ingest` did.
#[derive(Debug)]
pub enum Step<T> {
    /// The block was appended; the trigger did not fire.
    Buffered,
    /// The trigger fired: both buffers are handed out and the engine's are empty.
    Correlate(Batch<T>),
    /// The trigger fired with an empty buffer; both buffers were dropped.
    Failed(EngineError),
    /// `End` was observed now; the partial buffers were dropped.
    Closed,
    /// The engine had already closed; the input was not looked at.
    Ignored,
}

/// The abstract state of an engine.
pub struct EngineState<T> {
    pub reference: Seq<T>,
    pub captured: Seq<T>,
    pub threshold: nat,
    pub closed: bool,
}

/// The buffers after the block of `ev` is appended to its role's buffer.
pub open spec fn appended<T>(s: EngineState<T>, ev: Tagged<T>) -> EngineState<T> {
    match ev {
        Tagged::Reference(b) => EngineState { reference: s.reference + b@, ..s },
        Tagged::Captured(b) => EngineState { captured: s.captured + b@, ..s },
        Tagged::End => s,
    }
}

/// Number of captured samples that `ev` brings.
pub open spec fn captured_in<T>(ev: Tagged<T>) -> nat {
    match ev {
        Tagged::Captured(b) => b@.len(),
        _ => 0,
    }
}

/// Whether `ev`, arriving in state `s`, makes the trigger fire: the captured
/// buffer then holds at least `threshold` samples.
pub open spec fn triggers<T>(s: EngineState<T>, ev: Tagged<T>) -> bool {
    &&& !s.closed
    &&& !(ev is End)
    &&& appended(s, ev).captured.len() >= s.threshold
}

/// The state after `ev` arrives in state `s`.
pub open spec fn next_state<T>(s: EngineState<T>, ev: Tagged<T>) -> EngineState<T> {
    if s.closed {
        s
    } else if ev is End {
        EngineState { reference: Seq::empty(), captured: Seq::empty(), closed: true, ..s }
    } else if triggers(s, ev) {
        EngineState { reference: Seq::empty(), captured: Seq::empty(), ..s }
    } else {
        appended(s, ev)
    }
}

/// Whether `r` is what `ingest` reports when `ev` arrives in state `s`.
pub open spec fn step_of<T>(s: EngineState<T>, ev: Tagged<T>, r: Step<T>) -> bool {
    if s.closed {
        r is Ignored
    } else if ev is End {
        r is Closed
    } else if triggers(s, ev) {
        let a = appended(s, ev);
        if a.reference.len() == 0 || a.captured.len() == 0 {
            r == Step::<T>::Failed(EngineError::EmptyBuffer)
        } else {
            r matches Step::Correlate(b) && b.reference@ == a.reference && b.captured@ == a.captured
        }
    } else {
        r is Buffered
    }
}

/// The state after the events of `evs` arrive one after another in state `s`.
pub open spec fn run<T>(s: EngineState<T>, evs: Seq<Tagged<T>>) -> EngineState<T>
    decreases evs.len(),
{
    if evs.len() == 0 {
        s
    } else {
        run(next_state(s, evs[0]), evs.drop_first())
    }
}

/// How many times the trigger fires while the events of `evs` arrive in state `s`.
pub open spec fn trigger_count<T>(s: EngineState<T>, evs: Seq<Tagged<T>>) -> nat
    decreases evs.len(),
{
    if evs.len() == 0 {
        0
    } else {
        (if triggers(s, evs[0]) { 1nat } else { 0nat }) + trigger_count(
            next_state(s, evs[0]),
            evs.drop_first(),
        )
    }
}

/// The number of captured samples that the events of `evs` bring.
pub open spec fn captured_total<T>(evs: Seq<Tagged<T>>) -> nat
    decreases evs.len(),
{
    if evs.len() == 0 {
        0
    } else {
        captured_in(evs[0]) + captured_total(evs.drop_first())
    }
}

/// The reference samples that the events of `evs` bring, in order.
pub open spec fn reference_samples<T>(evs: Seq<Tagged<T>>) -> Seq<T>
    decreases evs.len(),
{
    if evs.len() == 0 {
        Seq::empty()
    } else {
        let rest = reference_samples(evs.drop_first());
        match evs[0] {
            Tagged::Reference(b) => b@ + rest,
            _ => rest,
        }
    }
}

/// The captured samples that the events of `evs` bring, in order.
pub open spec fn captured_samples<T>(evs: Seq<Tagged<T>>) -> Seq<T>
    decreases evs.len(),
{
    if evs.len() == 0 {
        Seq::empty()
    } else {
        let rest = captured_samples(evs.drop_first());
        match evs[0] {
            Tagged::Captured(b) => b@ + rest,
            _ => rest,
        }
    }
}

/// Once the captured samples that blocks (no `End`) bring to an open
/// engine reach the threshold, the trigger has fired at least once.
pub proof fn lemma_reaching_threshold_fires<T>(s: EngineState<T>, evs: Seq<Tagged<T>>)
    requires
        !s.closed,
        s.captured.len() < s.threshold,
        forall|i: int| 0 <= i < evs.len() ==> !(#[trigger] evs[i] is End),
        s.captured.len() + captured_total(evs) >= s.threshold,
    ensures
        trigger_count(s, evs) >= 1,
    decreases evs.len(),
{
    if evs.len() > 0 {
        let e = evs[0];
        let rest = evs.drop_first();
        assert(!(e is End));
        if !triggers(s, e) {
            assert forall|i: int| 0 <= i < rest.len() implies !(#[trigger] rest[i] is End) by {
                assert(rest[i] == evs[i + 1]);
            }
            assert(appended(s, e).captured.len() == s.captured.len() + captured_in(e));
            lemma_reaching_threshold_fires(next_state(s, e), rest);
        }
    }
}

/// Where every captured block holds one sample, the trigger fires once for
/// each `threshold` captured samples: with `c` samples buffered and `L`
/// brought, it fires `(c + L) / threshold` times and leaves
/// `(c + L) % threshold` samples buffered.
pub proof fn lemma_unit_blocks_count<T>(s: EngineState<T>, evs: Seq<Tagged<T>>)
    requires
        !s.closed,
        s.captured.len() < s.threshold,
        forall|i: int| 0 <= i < evs.len() ==> !(#[trigger] evs[i] is End),
        forall|i: int| 0 <= i < evs.len() && #[trigger] evs[i] is Captured ==> captured_in(evs[i]) == 1,
    ensures
        trigger_count(s, evs) == (s.captured.len() + captured_total(evs)) as int / s.threshold as int,
        run(s, evs).captured.len() == (s.captured.len() + captured_total(evs)) as int % s.threshold as int,
{
    lemma_unit_blocks_sum(s, evs);
    vstd::arithmetic::div_mod::lemma_fundamental_div_mod_converse(
        (s.captured.len() + captured_total(evs)) as int,
        s.threshold as int,
        trigger_count(s, evs) as int,
        run(s, evs).captured.len() as int,
    );
}

proof fn lemma_unit_blocks_sum<T>(s: EngineState<T>, evs: Seq<Tagged<T>>)
    requires
        !s.closed,
        s.captured.len() < s.threshold,
        forall|i: int| 0 <= i < evs.len() ==> !(#[trigger] evs[i] is End),
        forall|i: int| 0 <= i < evs.len() && #[trigger] evs[i] is Captured ==> captured_in(evs[i]) == 1,
    ensures
        trigger_count(s, evs) * s.threshold + run(s, evs).captured.len() == s.captured.len()
            + captured_total(evs),
        run(s, evs).captured.len() < s.threshold,
        !run(s, evs).closed,
    decreases evs.len(),
{
    if evs.len() > 0 {
        let e = evs[0];
        let rest = evs.drop_first();
        assert(!(e is End));
        assert forall|i: int| 0 <= i < rest.len() implies !(#[trigger] rest[i] is End) by {
            assert(rest[i] == evs[i + 1]);
        }
        assert forall|i: int| 0 <= i < rest.len() && #[trigger] rest[i] is Captured implies captured_in(
            rest[i],
        ) == 1 by {
            assert(rest[i] == evs[i + 1]);
        }
        let s1 = next_state(s, e);
        assert(appended(s, e).captured.len() == s.captured.len() + captured_in(e));
        lemma_unit_blocks_sum(s1, rest);
        let k1 = trigger_count(s1, rest);
        let t = s.threshold;
        assert(run(s, evs) == run(s1, rest));
        assert(captured_total(evs) == captured_in(e) + captured_total(rest));
        if triggers(s, e) {
            assert(captured_in(e) == 1);
            assert(s.captured.len() + 1 == t);
            assert(s1.captured.len() == 0);
            assert(trigger_count(s, evs) == k1 + 1);
            assert((k1 + 1) * t == k1 * t + t) by (nonlinear_arith);
            assert(trigger_count(s, evs) * t == k1 * t + t);
        } else {
            assert(s1.captured.len() == s.captured.len() + captured_in(e));
            assert(trigger_count(s, evs) == k1);
            assert(trigger_count(s, evs) * t == k1 * t);
        }
    } else {
        assert(trigger_count(s, evs) == 0);
        assert(0 * s.threshold == 0);
    }
}

/// While the captured buffer stays below the threshold, an open engine
/// fed blocks (no `End`) only accumulates: each buffer is the old one
/// followed by its role's samples, in their order of arrival.
pub proof fn lemma_window_contents<T>(s: EngineState<T>, evs: Seq<Tagged<T>>)
    requires
        !s.closed,
        forall|i: int| 0 <= i < evs.len() ==> !(#[trigger] evs[i] is End),
        s.captured.len() + captured_samples(evs).len() < s.threshold,
    ensures
        trigger_count(s, evs) == 0,
        run(s, evs) == (EngineState {
            reference: s.reference + reference_samples(evs),
            captured: s.captured + captured_samples(evs),
            ..s
        }),
    decreases evs.len(),
{
    if evs.len() == 0 {
        assert(s.reference + Seq::<T>::empty() =~= s.reference);
        assert(s.captured + Seq::<T>::empty() =~= s.captured);
    } else {
        let e = evs[0];
        let rest = evs.drop_first();
        assert(!(e is End));
        assert forall|i: int| 0 <= i < rest.len() implies !(#[trigger] rest[i] is End) by {
            assert(rest[i] == evs[i + 1]);
        }
        let s1 = next_state(s, e);
        match e {
            Tagged::Reference(b) => {
                assert(!triggers(s, e));
                assert(s1.reference =~= s.reference + b@);
                lemma_window_contents(s1, rest);
                assert(s.reference + b@ + reference_samples(rest) =~= s.reference + (b@
                    + reference_samples(rest)));
            },
            Tagged::Captured(b) => {
                assert(captured_samples(evs) == b@ + captured_samples(rest));
                assert(!triggers(s, e));
                lemma_window_contents(s1, rest);
                assert(s.captured + b@ + captured_samples(rest) =~= s.captured + (b@
                    + captured_samples(rest)));
            },
            Tagged::End => {},
        }
    }
}

/// Starting from empty buffers (as after a trigger), the block `ev` that
/// next fires the trigger hands out exactly the samples of each role that
/// arrived since then, `ev`'s own included, and leaves both buffers empty:
/// no sample goes into two batches.
pub proof fn lemma_batch_is_window<T>(
    s: EngineState<T>,
    evs: Seq<Tagged<T>>,
    ev: Tagged<T>,
    r: Step<T>,
)
    requires
        !s.closed,
        s.reference.len() == 0,
        s.captured.len() == 0,
        forall|i: int| 0 <= i < evs.len() ==> !(#[trigger] evs[i] is End),
        captured_samples(evs).len() < s.threshold,
        triggers(run(s, evs), ev),
        step_of(run(s, evs), ev, r),
    ensures
        r is Correlate ==> r->Correlate_0.reference@ == reference_samples(evs + seq![ev])
            && r->Correlate_0.captured@ == captured_samples(evs + seq![ev]),
        next_state(run(s, evs), ev).reference.len() == 0,
        next_state(run(s, evs), ev).captured.len() == 0,
{
    lemma_window_contents(s, evs);
    lemma_samples_concat(evs, seq![ev]);
    let one = seq![ev];
    assert(one.drop_first() =~= Seq::<Tagged<T>>::empty());
    assert(one[0] == ev);
    assert(reference_samples(one.drop_first()) =~= Seq::<T>::empty());
    assert(captured_samples(one.drop_first()) =~= Seq::<T>::empty());
    assert(s.reference + reference_samples(evs) =~= reference_samples(evs));
    assert(s.captured + captured_samples(evs) =~= captured_samples(evs));
    match ev {
        Tagged::Reference(b) => {
            assert(b@ + Seq::<T>::empty() =~= b@);
            assert(reference_samples(one) =~= b@);
            assert(captured_samples(one) =~= Seq::<T>::empty());
            assert(captured_samples(evs) + Seq::<T>::empty() =~= captured_samples(evs));
        },
        Tagged::Captured(b) => {
            assert(b@ + Seq::<T>::empty() =~= b@);
            assert(captured_samples(one) =~= b@);
            assert(reference_samples(one) =~= Seq::<T>::empty());
            assert(reference_samples(evs) + Seq::<T>::empty() =~= reference_samples(evs));
        },
        Tagged::End => {},
    }
}

/// The samples of each role in two runs, one after the other, are those of
/// the first followed by those of the second.
pub proof fn lemma_samples_concat<T>(a: Seq<Tagged<T>>, b: Seq<Tagged<T>>)
    ensures
        reference_samples(a + b) == reference_samples(a) + reference_samples(b),
        captured_samples(a + b) == captured_samples(a) + captured_samples(b),
    decreases a.len(),
{
    if a.len() == 0 {
        assert(a + b =~= b);
        assert(Seq::<T>::empty() + reference_samples(b) =~= reference_samples(b));
        assert(Seq::<T>::empty() + captured_samples(b) =~= captured_samples(b));
    } else {
        assert((a + b)[0] == a[0]);
        assert((a + b).drop_first() =~= a.drop_first() + b);
        lemma_samples_concat(a.drop_first(), b);
        let ra = reference_samples(a.drop_first());
        let ca = captured_samples(a.drop_first());
        let rb = reference_samples(b);
        let cb = captured_samples(b);
        match a[0] {
            Tagged::Reference(x) => {
                assert(x@ + (ra + rb) =~= (x@ + ra) + rb);
            },
            Tagged::Captured(x) => {
                assert(x@ + (ca + cb) =~= (x@ + ca) + cb);
            },
            Tagged::End => {},
        }
    }
}

/// The arrival order across the two roles does not matter: two runs of
/// blocks that bring the same reference samples and the same captured
/// samples, each in its own order, and stay below the threshold, leave the
/// engine in the same state. So the block that next fires the trigger hands
/// out the same buffers after either run.
pub proof fn lemma_interleaving_independent<T>(
    s: EngineState<T>,
    evs1: Seq<Tagged<T>>,
    evs2: Seq<Tagged<T>>,
    ev: Tagged<T>,
)
    requires
        !s.closed,
        forall|i: int| 0 <= i < evs1.len() ==> !(#[trigger] evs1[i] is End),
        forall|i: int| 0 <= i < evs2.len() ==> !(#[trigger] evs2[i] is End),
        reference_samples(evs1) == reference_samples(evs2),
        captured_samples(evs1) == captured_samples(evs2),
        s.captured.len() + captured_samples(evs1).len() < s.threshold,
    ensures
        run(s, evs1) == run(s, evs2),
        trigger_count(s, evs1) == 0,
        trigger_count(s, evs2) == 0,
        forall|r: Step<T>| step_of(run(s, evs1), ev, r) <==> step_of(run(s, evs2), ev, r),
        next_state(run(s, evs1), ev) == next_state(run(s, evs2), ev),
{
    lemma_window_contents(s, evs1);
    lemma_window_contents(s, evs2);
}

/// Feeding blocks (no `End`) to an open engine, where the captured samples
/// reach the threshold with the last block and not before, fires the trigger
/// exactly once, and leaves both buffers empty.
pub proof fn lemma_one_correlation_per_crossing<T>(s: EngineState<T>, evs: Seq<Tagged<T>>)
    requires
        !s.closed,
        evs.len() >= 1,
        forall|i: int| 0 <= i < evs.len() ==> !(#[trigger] evs[i] is End),
        s.captured.len() + captured_total(evs.drop_last()) < s.threshold,
        s.captured.len() + captured_total(evs) >= s.threshold,
    ensures
        trigger_count(s, evs) == 1,
        run(s, evs).captured.len() == 0,
        run(s, evs).reference.len() == 0,
        !run(s, evs).closed,
    decreases evs.len(),
{
    let e = evs[0];
    assert(!(e is End));
    let rest = evs.drop_first();
    if evs.len() == 1 {
        assert(rest.len() == 0);
        assert(captured_total(evs) == captured_in(e) + captured_total(rest));
        assert(appended(s, e).captured.len() == s.captured.len() + captured_in(e));
        assert(triggers(s, e));
        assert(trigger_count(next_state(s, e), rest) == 0);
        assert(run(next_state(s, e), rest) == next_state(s, e));
    } else {
        assert(rest.len() >= 1);
        assert(evs.drop_last().drop_first() =~= rest.drop_last());
        assert(evs.drop_last()[0] == e);
        assert(captured_total(evs.drop_last()) == captured_in(e) + captured_total(rest.drop_last()));
        assert(appended(s, e).captured.len() == s.captured.len() + captured_in(e));
        assert(!triggers(s, e));
        let s1 = next_state(s, e);
        assert(s1 == appended(s, e));
        assert forall|i: int| 0 <= i < rest.len() implies !(#[trigger] rest[i] is End) by {
            assert(rest[i] == evs[i + 1]);
        }
        lemma_one_correlation_per_crossing(s1, rest);
        assert(trigger_count(s, evs) == trigger_count(s1, rest));
        assert(run(s, evs) == run(s1, rest));
    }
}

/// Running two event sequences one after the other is running their
/// concatenation: states compose and trigger counts add up.
pub proof fn lemma_run_concat<T>(s: EngineState<T>, a: Seq<Tagged<T>>, b: Seq<Tagged<T>>)
    ensures
        run(s, a + b) == run(run(s, a), b),
        trigger_count(s, a + b) == trigger_count(s, a) + trigger_count(run(s, a), b),
    decreases a.len(),
{
    if a.len() == 0 {
        assert(a + b =~= b);
    } else {
        assert((a + b)[0] == a[0]);
        assert((a + b).drop_first() =~= a.drop_first() + b);
        lemma_run_concat(next_state(s, a[0]), a.drop_first(), b);
    }
}

/// A closed engine stays as it is and never correlates again.
pub proof fn lemma_closed_is_final<T>(s: EngineState<T>, evs: Seq<Tagged<T>>)
    requires
        s.closed,
    ensures
        run(s, evs) == s,
        trigger_count(s, evs) == 0,
    decreases evs.len(),
{
    if evs.len() > 0 {
        lemma_closed_is_final(next_state(s, evs[0]), evs.drop_first());
    }
}

/// A closed engine holds no samples, whatever events it went through.
pub proof fn lemma_closed_holds_nothing<T>(s: EngineState<T>, evs: Seq<Tagged<T>>)
    requires
        s.closed ==> s.reference.len() == 0 && s.captured.len() == 0,
    ensures
        run(s, evs).closed ==> run(s, evs).reference.len() == 0 && run(s, evs).captured.len() == 0,
    decreases evs.len(),
{
    if evs.len() > 0 {
        lemma_closed_holds_nothing(next_state(s, evs[0]), evs.drop_first());
    }
}

/// Once `End` has arrived, whatever follows it, the engine makes no
/// correlation beyond those made before `End`, and ends closed with empty
/// buffers. So `End` before the first trigger means no correlation at all.
pub proof fn lemma_end_stops_correlation<T>(
    s: EngineState<T>,
    before: Seq<Tagged<T>>,
    after: Seq<Tagged<T>>,
)
    requires
        s.closed ==> s.reference.len() == 0 && s.captured.len() == 0,
    ensures
        trigger_count(s, before + seq![Tagged::End] + after) == trigger_count(s, before),
        run(s, before + seq![Tagged::End] + after).closed,
        run(s, before + seq![Tagged::End] + after).captured.len() == 0,
        run(s, before + seq![Tagged::End] + after).reference.len() == 0,
{
    let e: Seq<Tagged<T>> = seq![Tagged::End];
    let mid = run(s, before);
    lemma_run_concat(s, before + e, after);
    lemma_run_concat(s, before, e);
    assert(e.drop_first() =~= Seq::<Tagged<T>>::empty());
    assert(e[0] is End);
    assert(run(mid, e) == run(next_state(mid, e[0]), e.drop_first()));
    lemma_closed_holds_nothing(s, before);
    assert(trigger_count(next_state(mid, e[0]), e.drop_first()) == 0);
    assert(trigger_count(mid, e) == 0);
    lemma_closed_is_final(run(mid, e), after);
}

/// Accumulates tagged blocks and decides when a correlation is due.
pub struct CorrelationEngine<T> {
    reference: Vec<T>,
    captured: Vec<T>,
    sample_rate: usize,
    threshold: usize,
    closed: bool,
}

impl<T> View for CorrelationEngine<T> {
    type V = EngineState<T>;

    closed spec fn view(&self) -> EngineState<T> {
        EngineState {
            reference: self.reference@,
            captured: self.captured@,
            threshold: self.threshold as nat,
            closed: self.closed,
        }
    }
}

impl<T> CorrelationEngine<T> {
    /// The engine's invariant: a positive threshold; while open, a captured
    /// buffer that is still below it; once closed, no samples held.
    pub open spec fn wf(&self) -> bool {
        &&& self@.threshold >= 1
        &&& !self@.closed ==> self@.captured.len() < self@.threshold
        &&& self@.closed ==> self@.reference.len() == 0 && self@.captured.len() == 0
    }

    pub closed spec fn spec_sample_rate(&self) -> nat {
        self.sample_rate as nat
    }

    /// An open engine with empty buffers, which correlates each time
    /// `threshold` captured samples have accumulated.
    pub fn new(sample_rate: usize, threshold: usize) -> (r: Result<Self, EngineError>)
        ensures
            sample_rate == 0 || threshold == 0 <==> r == Err::<Self, EngineError>(EngineError::InvalidConfig),
            sample_rate > 0 && threshold > 0 <==> r is Ok,
            r matches Ok(e) ==> {
                &&& e.wf()
                &&& e@.reference.len() == 0
                &&& e@.captured.len() == 0
                &&& e@.threshold == threshold
                &&& !e@.closed
                &&& e.spec_sample_rate() == sample_rate
            },
    {
        if sample_rate == 0 || threshold == 0 {
            return Err(EngineError::InvalidConfig);
        }
        Ok(CorrelationEngine {
            reference: Vec::new(),
            captured: Vec::new(),
            sample_rate,
            threshold,
            closed: false,
        })
    }

    /// An engine that correlates once each second of captured audio: the
    /// threshold is the sample rate.
    pub fn with_sample_rate(sample_rate: usize) -> (r: Result<Self, EngineError>)
        ensures
            sample_rate == 0 <==> r == Err::<Self, EngineError>(EngineError::InvalidConfig),
            sample_rate > 0 <==> r is Ok,
            r matches Ok(e) ==> {
                &&& e.wf()
                &&& e@.reference.len() == 0
                &&& e@.captured.len() == 0
                &&& e@.threshold == sample_rate
                &&& !e@.closed
                &&& e.spec_sample_rate() == sample_rate
            },
    {
        Self::new(sample_rate, sample_rate)
    }

    /// Takes one tagged block. A block is appended to its role's buffer; when
    /// the captured buffer then holds at least `threshold` samples, both
    /// buffers are handed out for correlation and the engine's are emptied.
    /// `End` closes the engine and drops what was buffered; once closed, the
    /// engine ignores all further input.
    pub fn ingest(&mut self, ev: Tagged<T>) -> (r: Step<T>)
        requires
            old(self).wf(),
        ensures
            final(self).wf(),
            final(self)@ == next_state(old(self)@, ev),
            final(self).spec_sample_rate() == old(self).spec_sample_rate(),
            step_of(old(self)@, ev, r),
    {
        if self.closed {
            return Step::Ignored;
        }
        match ev {
            Tagged::End => {
                self.reference = Vec::new();
                self.captured = Vec::new();
                self.closed = true;
                return Step::Closed;
            },
            Tagged::Reference(mut b) => {
                self.reference.append(&mut b);
            },
            Tagged::Captured(mut b) => {
                self.captured.append(&mut b);
            },
        }
        if self.captured.len() < self.threshold {
            return Step::Buffered;
        }
        let mut reference: Vec<T> = Vec::new();
        let mut captured: Vec<T> = Vec::new();
        std::mem::swap(&mut reference, &mut self.reference);
        std::mem::swap(&mut captured, &mut self.captured);
        if reference.len() == 0 || captured.len() == 0 {
            Step::Failed(EngineError::EmptyBuffer)
        } else {
            Step::Correlate(Batch { reference, captured })
        }
    }

    /// The queue that feeds the engine has gone away. After `End` this is the
    /// clean end of the stream; before it, the stream was cut off, which is
    /// reported, and the engine closes and drops its buffers.
    pub fn disconnect(&mut self) -> (r: Result<(), EngineError>)
        requires
            old(self).wf(),
        ensures
            final(self).wf(),
            final(self)@ == next_state(old(self)@, Tagged::<T>::End),
            final(self).spec_sample_rate() == old(self).spec_sample_rate(),
            old(self)@.closed <==> r is Ok,
            !old(self)@.closed <==> r == Err::<(), EngineError>(EngineError::StreamClosedUnexpectedly),
    {
        if self.closed {
            Ok(())
        } else {
            self.reference = Vec::new();
            self.captured = Vec::new();
            self.closed = true;
            Err(EngineError::StreamClosedUnexpectedly)
        }
    }

    /// Samples in the reference buffer.
    pub fn reference_len(&self) -> (r: usize)
        ensures
            r == self@.reference.len(),
    {
        self.reference.len()
    }

    /// Samples in the captured buffer.
    pub fn captured_len(&self) -> (r: usize)
        ensures
            r == self@.captured.len(),
    {
        self.captured.len()
    }

    /// Whether `End` has been observed, or the feed was cut off.
    pub fn is_closed(&self) -> (r: bool)
        ensures
            r == self@.closed,
    {
        self.closed
    }

    /// The number of captured samples at which a correlation is made.
    pub fn threshold(&self) -> (r: usize)
        ensures
            r == self@.threshold,
    {
        self.threshold
    }

    /// The sample rate that the engine was made with.
    pub fn sample_rate(&self) -> (r: usize)
        ensures
            r == self.spec_sample_rate(),
    {
        self.sample_rate
    }
}

} // verus!
