use vstd::prelude::*;

verus! {

/// Number of samples taken from a chunk of length `len` when `cursor` of
/// `capacity` slots are already filled: as many as fit.
pub open spec fn taken(capacity: int, cursor: int, len: int) -> int {
    if len < capacity - cursor {
        len
    } else {
        capacity - cursor
    }
}

/// The buffer after copying the first `k` samples of `chunk` in at `cursor`.
pub open spec fn copied_in<T>(buffer: Seq<T>, cursor: int, chunk: Seq<T>, k: int) -> Seq<T> {
    buffer.subrange(0, cursor) + chunk.subrange(0, k) + buffer.subrange(cursor + k, buffer.len() as int)
}

/// Fixed-size, non-overlapping analysis window filled from a stream of chunks.
pub struct AnalysisWindow<T> {
    buffer: Vec<T>,
    cursor: usize,
}

impl<T: Copy> AnalysisWindow<T> {
    /// The samples held, one per slot.
    pub closed spec fn samples(&self) -> Seq<T> {
        self.buffer@
    }

    /// The next slot to write.
    pub closed spec fn cursor_at(&self) -> int {
        self.cursor as int
    }

    /// The window has at least one slot and the cursor stands before its end.
    pub open spec fn wf(&self) -> bool {
        0 <= self.cursor_at() < self.samples().len()
    }

    /// A window of `capacity` slots, each holding `silence`, with the cursor at
    /// the start.
    pub fn new(capacity: usize, silence: T) -> (r: AnalysisWindow<T>)
        requires
            capacity > 0,
        ensures
            r.wf(),
            r.samples() == Seq::new(capacity as nat, |i: int| silence),
            r.cursor_at() == 0,
    {
        let mut buffer: Vec<T> = Vec::new();
        let mut i: usize = 0;
        while i < capacity
            invariant
                i <= capacity,
                buffer@ == Seq::new(i as nat, |j: int| silence),
            decreases capacity - i,
        {
            buffer.push(silence);
            i = i + 1;
            assert(buffer@ =~= Seq::new(i as nat, |j: int| silence));
        }
        AnalysisWindow { buffer, cursor: 0 }
    }

    /// Number of samples in a full window.
    pub fn capacity(&self) -> (r: usize)
        ensures
            r == self.samples().len(),
    {
        self.buffer.len()
    }

    /// Number of samples already gathered for the window being filled.
    pub fn cursor(&self) -> (r: usize)
        ensures
            r == self.cursor_at(),
    {
        self.cursor
    }

    /// Copies as much of `chunk` as fits, from the cursor on, and advances the
    /// cursor. When the window becomes full, returns its samples and moves the
    /// cursor back to the start; the rest of `chunk` is not kept.
    pub fn push(&mut self, chunk: &[T]) -> (r: Option<Vec<T>>)
        requires
            old(self).wf(),
        ensures
            final(self).wf(),
            ({
                let cap = old(self).samples().len() as int;
                let at = old(self).cursor_at();
                let k = taken(cap, at, chunk@.len() as int);
                let filled = copied_in(old(self).samples(), at, chunk@, k);
                &&& final(self).samples() == filled
                &&& (r is Some <==> at + k == cap)
                &&& (r matches Some(w) ==> w@ == filled)
                &&& final(self).cursor_at() == if at + k == cap { 0 } else { at + k }
            }),
    {
        let cap = self.buffer.len();
        let at = self.cursor;
        let k: usize = if chunk.len() < cap - at { chunk.len() } else { cap - at };
        let ghost start = self.buffer@;
        let mut j: usize = 0;
        while j < k
            invariant
                k == taken(cap as int, at as int, chunk@.len() as int),
                at + k <= cap,
                j <= k,
                cap == start.len(),
                self.cursor == at,
                self.buffer@ == copied_in(start, at as int, chunk@, j as int),
            decreases k - j,
        {
            self.buffer.set(at + j, chunk[j]);
            j = j + 1;
            assert(self.buffer@ =~= copied_in(start, at as int, chunk@, j as int));
        }
        if at + k == cap {
            let mut full: Vec<T> = Vec::new();
            let mut i: usize = 0;
            while i < cap
                invariant
                    i <= cap,
                    cap == self.buffer@.len(),
                    full@ == self.buffer@.subrange(0, i as int),
                decreases cap - i,
            {
                full.push(self.buffer[i]);
                i = i + 1;
                assert(full@ =~= self.buffer@.subrange(0, i as int));
            }
            assert(full@ =~= self.buffer@);
            self.cursor = 0;
            Some(full)
        } else {
            self.cursor = at + k;
            None
        }
    }
}

} // verus!
