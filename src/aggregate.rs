use vstd::prelude::*;

verus! {

/// Number of progress ticks in a complete run of at least that many pixels.
pub const PROGRESS_STEPS: u64 = 100;

/// Why a result was not written into the output buffer.
#[derive(Clone, Copy, Debug, PartialEq, Eq)]
pub enum AggregateError {
    /// The pixel index lies outside the buffer.
    OutOfRange,
    /// The pixel was already written.
    Duplicate,
}

/// Number of `true` entries.
pub open spec fn count_true(s: Seq<bool>) -> nat
    decreases s.len(),
{
    if s.len() == 0 {
        0
    } else {
        count_true(s.drop_last()) + if s.last() { 1nat } else { 0nat }
    }
}

/// Whether receiving the `done`-th of `total` results crosses a hundredth of
/// the total, so that progress advances by one tick.
pub open spec fn crosses_step(done: int, total: int) -> bool {
    let steps = PROGRESS_STEPS as int;
    done >= 1 && (done * steps) / total > ((done - 1) * steps) / total
}

/// The single consumer of worker results: owns the output buffer and writes
/// each received pixel colour at its index, each index at most once.
pub struct Aggregator {
    buffer: Vec<u32>,
    written: Vec<bool>,
    received: usize,
}

proof fn lemma_count_true_bound(s: Seq<bool>)
    ensures
        count_true(s) <= s.len(),
        count_true(s) == s.len() ==> forall|i: int| 0 <= i < s.len() ==> #[trigger] s[i],
    decreases s.len(),
{
    if s.len() > 0 {
        lemma_count_true_bound(s.drop_last());
        if count_true(s) == s.len() {
            assert forall|i: int| 0 <= i < s.len() implies #[trigger] s[i] by {
                if i < s.len() - 1 {
                    assert(s.drop_last()[i] == s[i]);
                }
            }
        }
    }
}

proof fn lemma_count_true_set(s: Seq<bool>, k: int)
    requires
        0 <= k < s.len(),
        !s[k],
    ensures
        count_true(s.update(k, true)) == count_true(s) + 1,
    decreases s.len(),
{
    let t = s.update(k, true);
    if k == s.len() - 1 {
        assert(t.drop_last() =~= s.drop_last());
    } else {
        lemma_count_true_set(s.drop_last(), k);
        assert(t.drop_last() =~= s.drop_last().update(k, true));
    }
}

proof fn lemma_count_true_none(n: nat)
    ensures
        count_true(Seq::new(n, |i: int| false)) == 0,
    decreases n,
{
    if n > 0 {
        lemma_count_true_none((n - 1) as nat);
        assert(Seq::new(n, |i: int| false).drop_last() =~= Seq::new((n - 1) as nat, |i: int| false));
    }
}

impl Aggregator {
    /// The output buffer; a slot not yet written holds 0.
    pub closed spec fn pixels(&self) -> Seq<u32> {
        self.buffer@
    }

    /// Which slots have been written.
    pub closed spec fn written(&self) -> Seq<bool> {
        self.written@
    }

    /// Number of results written so far.
    pub closed spec fn received(&self) -> nat {
        self.received as nat
    }

    pub closed spec fn wf(&self) -> bool {
        &&& self.buffer.len() == self.written.len()
        &&& self.received == count_true(self.written@)
    }

    /// An aggregator for `total` pixels, none written.
    pub fn new(total: usize) -> (a: Aggregator)
        ensures
            a.wf(),
            a.pixels() == Seq::new(total as nat, |i: int| 0u32),
            a.written() == Seq::new(total as nat, |i: int| false),
            a.received() == 0,
    {
        let mut buffer: Vec<u32> = Vec::new();
        let mut written: Vec<bool> = Vec::new();
        let mut i: usize = 0;
        while i < total
            invariant
                i <= total,
                buffer@ == Seq::new(i as nat, |k: int| 0u32),
                written@ == Seq::new(i as nat, |k: int| false),
            decreases total - i,
        {
            buffer.push(0);
            written.push(false);
            i = i + 1;
            assert(buffer@ =~= Seq::new(i as nat, |k: int| 0u32));
            assert(written@ =~= Seq::new(i as nat, |k: int| false));
        }
        proof {
            lemma_count_true_none(total as nat);
        }
        Aggregator { buffer, written, received: 0 }
    }

    /// Number of slots of the buffer.
    pub fn len(&self) -> (n: usize)
        requires
            self.wf(),
        ensures
            n == self.pixels().len(),
            n == self.written().len(),
    {
        self.buffer.len()
    }

    /// Writes `colour` at `index`. Refuses an index outside the buffer or one
    /// already written, leaving everything as it was. On success, says whether
    /// this result crosses a hundredth of the total (a progress tick).
    pub fn accept(&mut self, index: usize, colour: u32) -> (r: Result<bool, AggregateError>)
        requires
            old(self).wf(),
        ensures
            final(self).wf(),
            final(self).written().len() == final(self).pixels().len(),
            index >= old(self).pixels().len() <==> r == Err::<bool, AggregateError>(
                AggregateError::OutOfRange,
            ),
            index < old(self).pixels().len() && old(self).written()[index as int] <==> r == Err::<
                bool,
                AggregateError,
            >(AggregateError::Duplicate),
            r is Ok <==> index < old(self).pixels().len() && !old(self).written()[index as int],
            r is Err ==> *final(self) == *old(self),
            r matches Ok(tick) ==> {
                &&& final(self).pixels() == old(self).pixels().update(index as int, colour)
                &&& final(self).written() == old(self).written().update(index as int, true)
                &&& final(self).received() == old(self).received() + 1
                &&& tick == crosses_step(
                    final(self).received() as int,
                    final(self).pixels().len() as int,
                )
            },
    {
        if index >= self.buffer.len() {
            return Err(AggregateError::OutOfRange);
        }
        if self.written[index] {
            return Err(AggregateError::Duplicate);
        }
        proof {
            lemma_count_true_set(self.written@, index as int);
            lemma_count_true_bound(self.written@.update(index as int, true));
        }
        self.buffer.set(index, colour);
        self.written.set(index, true);
        self.received = self.received + 1;
        let done = self.received as u128;
        let total = self.buffer.len() as u128;
        let steps = PROGRESS_STEPS as u128;
        Ok((done * steps) / total > ((done - 1) * steps) / total)
    }

    /// Whether every slot has been written.
    pub fn is_complete(&self) -> (r: bool)
        requires
            self.wf(),
        ensures
            r == (self.received() == self.pixels().len()),
            r ==> forall|i: int| 0 <= i < self.pixels().len() ==> #[trigger] self.written()[i],
    {
        proof {
            lemma_count_true_bound(self.written@);
        }
        self.received == self.buffer.len()
    }

    /// Hands over the output buffer.
    pub fn into_buffer(self) -> (b: Vec<u32>)
        ensures
            b@ == self.pixels(),
    {
        self.buffer
    }
}

/// Once as many results have been accepted as there are slots, every slot has
/// been written, and each at most once, since a second write is refused.
pub proof fn lemma_complete_run_fills_every_slot(a: Aggregator)
    requires
        a.wf(),
        a.received() == a.pixels().len(),
    ensures
        forall|i: int| 0 <= i < a.pixels().len() ==> #[trigger] a.written()[i],
{
    lemma_count_true_bound(a.written());
}

} // verus!
