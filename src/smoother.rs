use vstd::prelude::*;
use crate::note::{nearest_note, note_from_offset, Note, NoteId};

verus! {

/// Number of recent readings that the display averages over.
pub const HISTORY_LEN: usize = 10;

/// A display is locked ("in tune") when its mean deviation is under this many
/// hundredths of a cent (2.5 cents).
pub const LOCK_THRESHOLD: i64 = 250;

/// Mathematical state of a smoother: the circular history of deviations, the
/// next slot to write, and the note the history belongs to.
pub struct SmootherView {
    pub history: Seq<i64>,
    pub pos: int,
    pub current: Option<NoteId>,
}

/// Sum of a sequence of deviations.
pub open spec fn seq_sum(s: Seq<i64>) -> int
    decreases s.len(),
{
    if s.len() == 0 {
        0
    } else {
        seq_sum(s.drop_last()) + s.last()
    }
}

/// A history of `HISTORY_LEN` empty slots.
pub open spec fn cleared_history() -> Seq<i64> {
    Seq::new(HISTORY_LEN as nat, |i: int| 0i64)
}

impl SmootherView {
    /// The history has `HISTORY_LEN` slots, each a deviation of at most half a
    /// semitone, and the write position is one of them.
    pub open spec fn wf(self) -> bool {
        &&& self.history.len() == HISTORY_LEN
        &&& 0 <= self.pos < HISTORY_LEN
        &&& forall|i: int| 0 <= i < HISTORY_LEN ==> -5000 <= #[trigger] self.history[i] <= 5000
    }

    /// Sum of all slots; the mean deviation is this over `HISTORY_LEN`.
    pub open spec fn cents_sum(self) -> int {
        seq_sum(self.history)
    }

    /// The mean deviation is strictly within `LOCK_THRESHOLD` of zero.
    pub open spec fn locked(self) -> bool {
        -(HISTORY_LEN * LOCK_THRESHOLD) < self.cents_sum() < HISTORY_LEN * LOCK_THRESHOLD
    }
}

/// One reading applied to the state: an absent reading changes nothing; a
/// reading of another note clears the history first; the deviation is then
/// written at the write position, which advances with wrap-around.
pub open spec fn feed(v: SmootherView, reading: Option<Note>) -> SmootherView {
    match reading {
        None => v,
        Some(n) => {
            let fresh = v.current != Some(n.spec_id());
            let base = if fresh { cleared_history() } else { v.history };
            let at = if fresh { 0 } else { v.pos };
            SmootherView {
                history: base.update(at, n.cents),
                pos: (at + 1) % (HISTORY_LEN as int),
                current: Some(n.spec_id()),
            }
        },
    }
}

/// The same reading applied `k` times.
pub open spec fn feed_times(v: SmootherView, n: Note, k: nat) -> SmootherView
    decreases k,
{
    if k == 0 {
        v
    } else {
        feed(feed_times(v, n, (k - 1) as nat), Some(n))
    }
}

/// What the renderer shows: the tracked note, the sum of the history (the
/// mean deviation times `HISTORY_LEN`, in hundredths of a cent) and whether
/// the reading is in tune.
#[derive(Clone, Copy, Debug, PartialEq, Eq, Structural)]
pub struct SmoothedDisplay {
    pub note: Option<NoteId>,
    pub cents_sum: i64,
    pub locked: bool,
}

/// Rolling average of recent deviations for the note currently heard.
pub struct DisplaySmoother {
    history: Vec<i64>,
    pos: usize,
    current: Option<NoteId>,
}

impl View for DisplaySmoother {
    type V = SmootherView;

    closed spec fn view(&self) -> SmootherView {
        SmootherView { history: self.history@, pos: self.pos as int, current: self.current }
    }
}

fn zeroed_history() -> (r: Vec<i64>)
    ensures
        r@ == cleared_history(),
{
    let mut r: Vec<i64> = Vec::new();
    let mut i: usize = 0;
    while i < HISTORY_LEN
        invariant
            i <= HISTORY_LEN,
            r@ == Seq::new(i as nat, |j: int| 0i64),
        decreases HISTORY_LEN - i,
    {
        r.push(0);
        i = i + 1;
        assert(r@ =~= Seq::new(i as nat, |j: int| 0i64));
    }
    assert(r@ =~= cleared_history());
    r
}

impl DisplaySmoother {
    pub open spec fn wf(&self) -> bool {
        self@.wf()
    }

    /// A smoother with an empty history and no note.
    pub fn new() -> (r: DisplaySmoother)
        ensures
            r.wf(),
            r@.history == cleared_history(),
            r@.pos == 0,
            r@.current.is_none(),
    {
        DisplaySmoother { history: zeroed_history(), pos: 0, current: None }
    }

    /// The current display.
    pub fn display(&self) -> (r: SmoothedDisplay)
        requires
            self.wf(),
        ensures
            r.note == self@.current,
            r.cents_sum == self@.cents_sum(),
            r.locked == self@.locked(),
    {
        let mut sum: i64 = 0;
        let mut i: usize = 0;
        while i < HISTORY_LEN
            invariant
                self.wf(),
                i <= HISTORY_LEN,
                sum == seq_sum(self.history@.subrange(0, i as int)),
                -5000 * i <= sum <= 5000 * i,
            decreases HISTORY_LEN - i,
        {
            proof {
                assert(self.history@.subrange(0, i + 1).drop_last() =~= self.history@.subrange(
                    0,
                    i as int,
                ));
            }
            sum = sum + self.history[i];
            i = i + 1;
        }
        proof {
            assert(self.history@.subrange(0, HISTORY_LEN as int) =~= self.history@);
        }
        let bound: i64 = 2500;
        SmoothedDisplay { note: self.current, cents_sum: sum, locked: -bound < sum && sum < bound }
    }

    /// Takes one reading, absent when no pitch was detected, and returns the
    /// display after it.
    pub fn on_reading(&mut self, reading: Option<Note>) -> (r: SmoothedDisplay)
        requires
            old(self).wf(),
            reading matches Some(n) ==> n.wf(),
        ensures
            final(self).wf(),
            final(self)@ == feed(old(self)@, reading),
            r.note == final(self)@.current,
            r.cents_sum == final(self)@.cents_sum(),
            r.locked == final(self)@.locked(),
    {
        match reading {
            None => self.display(),
            Some(n) => {
                let id = n.id();
                let same = match self.current {
                    Some(c) => c == id,
                    None => false,
                };
                if !same {
                    self.history = zeroed_history();
                    self.pos = 0;
                    self.current = Some(id);
                }
                self.history.set(self.pos, n.cents);
                if self.pos + 1 == HISTORY_LEN {
                    self.pos = 0;
                } else {
                    self.pos = self.pos + 1;
                }
                proof {
                    assert(self@.history =~= feed(old(self)@, reading).history);
                }
                self.display()
            },
        }
    }

    /// Takes one pitch offset from C4 in hundredths of a cent, absent when no
    /// pitch was detected, maps it to the nearest note and feeds that reading.
    pub fn on_pitch_offset(&mut self, offset: Option<i64>) -> (r: SmoothedDisplay)
        requires
            old(self).wf(),
        ensures
            final(self).wf(),
            final(self)@ == feed(
                old(self)@,
                match offset {
                    Some(x) => Some(nearest_note(x as int)),
                    None => None,
                },
            ),
            r.note == final(self)@.current,
            r.cents_sum == final(self)@.cents_sum(),
            r.locked == final(self)@.locked(),
    {
        let reading = match offset {
            Some(x) => Some(note_from_offset(x)),
            None => None,
        };
        self.on_reading(reading)
    }
}

/// The sum of a sequence whose every element is `c`.
proof fn lemma_sum_constant(s: Seq<i64>, c: i64)
    requires
        forall|i: int| 0 <= i < s.len() ==> s[i] == c,
    ensures
        seq_sum(s) == s.len() * c,
    decreases s.len(),
{
    if s.len() > 0 {
        lemma_sum_constant(s.drop_last(), c);
        assert((s.len() - 1) * c + c == s.len() * c) by (nonlinear_arith);
    }
}

/// Overwriting one element changes the sum by the difference.
proof fn lemma_sum_update(s: Seq<i64>, i: int, x: i64)
    requires
        0 <= i < s.len(),
    ensures
        seq_sum(s.update(i, x)) == seq_sum(s) - s[i] + x,
    decreases s.len(),
{
    if i == s.len() - 1 {
        assert(s.update(i, x).drop_last() =~= s.drop_last());
    } else {
        lemma_sum_update(s.drop_last(), i, x);
        assert(s.update(i, x).drop_last() =~= s.drop_last().update(i, x));
    }
}

/// Feeding keeps the state well formed.
proof fn lemma_feed_wf(v: SmootherView, reading: Option<Note>)
    requires
        v.wf(),
        reading matches Some(n) ==> n.wf(),
    ensures
        feed(v, reading).wf(),
{
}

/// After `k >= 1` equal readings, the history belongs to that note, and the
/// `k` slots most recently written (counting back from the write position)
/// hold its deviation.
proof fn lemma_recent_slots(v: SmootherView, n: Note, k: nat)
    requires
        v.wf(),
        n.wf(),
        1 <= k <= HISTORY_LEN,
    ensures
        ({
            let w = feed_times(v, n, k);
            &&& w.wf()
            &&& w.current == Some(n.spec_id())
            &&& forall|i: int|
                0 <= i < HISTORY_LEN && ((i < w.pos && w.pos - i <= k) || (i >= w.pos && w.pos
                    + HISTORY_LEN - i <= k)) ==> #[trigger] w.history[i] == n.cents
        }),
    decreases k,
{
    if k > 1 {
        lemma_recent_slots(v, n, (k - 1) as nat);
        lemma_feed_wf(feed_times(v, n, (k - 1) as nat), Some(n));
    } else {
        lemma_feed_wf(v, Some(n));
        assert(feed_times(v, n, 0) == v);
    }
}

/// Ten equal readings of one note fill the whole history with its deviation:
/// the mean deviation is then exactly that reading's.
pub proof fn lemma_steady_reading(v: SmootherView, n: Note)
    requires
        v.wf(),
        n.wf(),
    ensures
        feed_times(v, n, HISTORY_LEN as nat).history == Seq::new(HISTORY_LEN as nat, |i: int| n.cents),
        feed_times(v, n, HISTORY_LEN as nat).cents_sum() == HISTORY_LEN * n.cents,
{
    let w = feed_times(v, n, HISTORY_LEN as nat);
    lemma_recent_slots(v, n, HISTORY_LEN as nat);
    assert forall|i: int| 0 <= i < HISTORY_LEN implies w.history[i] == n.cents by {
        assert((i < w.pos && w.pos - i <= HISTORY_LEN) || (i >= w.pos && w.pos + HISTORY_LEN - i
            <= HISTORY_LEN));
    }
    assert(w.history =~= Seq::new(HISTORY_LEN as nat, |i: int| n.cents));
    lemma_sum_constant(w.history, n.cents);
}

/// A reading of a note other than the tracked one discards the whole history:
/// afterwards the history holds that single reading and empty slots, so its sum
/// is exactly that reading's deviation, unblended with the previous note's.
pub proof fn lemma_note_change_resets(v: SmootherView, n: Note)
    requires
        v.wf(),
        n.wf(),
        v.current != Some(n.spec_id()),
    ensures
        feed(v, Some(n)).history == cleared_history().update(0, n.cents),
        feed(v, Some(n)).cents_sum() == n.cents,
{
    lemma_sum_constant(cleared_history(), 0);
    lemma_sum_update(cleared_history(), 0, n.cents);
}

/// An absent reading changes nothing; in particular, one between two readings
/// leaves the same state, and the same mean deviation, as if it had not come.
pub proof fn lemma_absent_ignored(v: SmootherView, a: Note, b: Note)
    ensures
        feed(v, None) == v,
        feed(feed(feed(v, Some(a)), None), Some(b)) == feed(feed(v, Some(a)), Some(b)),
        feed(feed(v, Some(a)), None).cents_sum() == feed(v, Some(a)).cents_sum(),
{
}

} // verus!
