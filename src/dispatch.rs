use vstd::prelude::*;

verus! {

/// The shared source of work: hands out row indices `0..height` one at a time,
/// each to whichever worker asks next.
pub struct LineDispatcher {
    next: u32,
    height: u32,
}

/// One claim on a dispatcher whose next unclaimed row is `next`: the row it
/// returns, if any, and the next unclaimed row afterwards.
pub open spec fn claim_step(next: nat, height: nat) -> (Option<u32>, nat) {
    if next < height {
        (Some(next as u32), next + 1)
    } else {
        (None, next)
    }
}

/// What `n` successive claims return, starting from next unclaimed row `next`.
pub open spec fn claims_from(next: nat, height: nat, n: nat) -> Seq<Option<u32>>
    decreases n,
{
    if n == 0 {
        Seq::empty()
    } else {
        let (r, after) = claim_step(next, height);
        seq![r] + claims_from(after, height, (n - 1) as nat)
    }
}

impl LineDispatcher {
    /// The next row that a claim hands out, while rows are left.
    pub closed spec fn next_row(&self) -> nat {
        self.next as nat
    }

    pub closed spec fn rows(&self) -> nat {
        self.height as nat
    }

    pub closed spec fn wf(&self) -> bool {
        self.next <= self.height
    }

    /// A dispatcher for `height` rows, none claimed yet.
    pub fn new(height: u32) -> (d: LineDispatcher)
        ensures
            d.wf(),
            d.next_row() == 0,
            d.rows() == height,
    {
        LineDispatcher { next: 0, height }
    }

    /// Claims the next unclaimed row, or returns `None` once every row has
    /// been handed out.
    pub fn claim(&mut self) -> (r: Option<u32>)
        requires
            old(self).wf(),
        ensures
            final(self).wf(),
            final(self).rows() == old(self).rows(),
            (r, final(self).next_row()) == claim_step(old(self).next_row(), old(self).rows()),
    {
        if self.next < self.height {
            let row = self.next;
            self.next = self.next + 1;
            Some(row)
        } else {
            None
        }
    }

    /// Whether every row has been handed out.
    pub fn is_exhausted(&self) -> (r: bool)
        requires
            self.wf(),
        ensures
            r == (self.next_row() == self.rows()),
    {
        self.next == self.height
    }
}

proof fn lemma_claims_closed_form(next: nat, height: nat, n: nat)
    ensures
        claims_from(next, height, n).len() == n,
        forall|i: int|
            0 <= i < n ==> #[trigger] claims_from(next, height, n)[i] == (if next + i < height {
                Some((next + i) as u32)
            } else {
                None
            }),
    decreases n,
{
    if n > 0 {
        let after = claim_step(next, height).1;
        lemma_claims_closed_form(after, height, (n - 1) as nat);
        let rest = claims_from(after, height, (n - 1) as nat);
        assert forall|i: int| 0 < i < n implies #[trigger] claims_from(next, height, n)[i] == rest[i
            - 1] by {}
        if next >= height {
            assert(after == next);
        }
    }
}

/// From a fresh dispatcher for `height` rows, however many workers share it,
/// at least `height` claims hand out every row exactly once and nothing else:
/// claim number `row` gets `row`, and no two claims get the same row.
pub proof fn lemma_each_row_claimed_once(height: nat, n: nat)
    requires
        n >= height,
        height <= u32::MAX,
    ensures
        forall|row: int|
            0 <= row < height ==> #[trigger] claims_from(0, height, n)[row] == Some(row as u32),
        forall|i: int, j: int|
            0 <= i < n && 0 <= j < n && #[trigger] claims_from(0, height, n)[i] is Some
                && #[trigger] claims_from(0, height, n)[j] == claims_from(0, height, n)[i] ==> i
                == j,
        forall|i: int|
            0 <= i < n ==> (#[trigger] claims_from(0, height, n)[i] matches Some(row) ==> row
                < height),
{
    lemma_claims_closed_form(0, height, n);
}

} // verus!
