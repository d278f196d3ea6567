//! The line edit buffer: the in-progress, not-yet-submitted line of input,
//! a sequence of characters together with an insertion index.
//!
//! The buffer is independent of terminal geometry. Its operations are
//! insert-at-index, delete-before-index (backspace), bounded index movement,
//! and `flush`, which hands the completed line to the caller and resets the
//! buffer.

use vstd::prelude::*;

verus! {

/// An editable line of text plus an insertion index.
///
/// The index always lies between 0 and the length of the text; every
/// operation preserves that bound, so no operation here can fail.
pub struct LineBuffer {
    text: Vec<char>,
    idx: usize,
}

impl LineBuffer {
    #[verifier::type_invariant]
    spec fn wf(self) -> bool {
        self.idx <= self.text.len()
    }

    /// The characters currently in the buffer.
    pub closed spec fn text(self) -> Seq<char> {
        self.text@
    }

    /// The insertion index.
    pub closed spec fn idx(self) -> nat {
        self.idx as nat
    }

    /// An empty buffer with the index at 0.
    pub fn new() -> (b: LineBuffer)
        ensures
            b.text() == Seq::<char>::empty(),
            b.idx() == 0,
    {
        LineBuffer { text: Vec::new(), idx: 0 }
    }

    /// The current insertion index.
    pub fn index(&self) -> (i: usize)
        ensures
            i == self.idx(),
            i <= self.text().len(),
    {
        proof {
            use_type_invariant(self);
        }
        self.idx
    }

    /// The current number of characters in the buffer.
    pub fn len(&self) -> (n: usize)
        ensures
            n == self.text().len(),
    {
        self.text.len()
    }

    /// The character at position `i`.
    pub fn char_at(&self, i: usize) -> (c: char)
        requires
            i < self.text().len(),
        ensures
            c == self.text()[i as int],
    {
        self.text[i]
    }

    /// Inserts `c` at the insertion index and moves the index past it.
    /// Always succeeds: the buffer has no fixed capacity.
    pub fn insert(&mut self, c: char)
        ensures
            final(self).text() == old(self).text().insert(old(self).idx() as int, c),
            final(self).idx() == old(self).idx() + 1,
    {
        proof {
            use_type_invariant(&*self);
        }
        let at = self.idx;
        self.idx = 0;
        let mut t: Vec<char> = Vec::new();
        core::mem::swap(&mut t, &mut self.text);
        t.insert(at, c);
        core::mem::swap(&mut t, &mut self.text);
        self.idx = at + 1;
    }

    /// Removes the character before the insertion index and moves the index
    /// back over it; at index 0 there is nothing before the index and the
    /// buffer is left unchanged.
    pub fn delete_back(&mut self)
        ensures
            old(self).idx() == 0 ==> *final(self) == *old(self),
            old(self).idx() > 0 ==> {
                &&& final(self).text() == old(self).text().remove(old(self).idx() - 1)
                &&& final(self).idx() == old(self).idx() - 1
            },
    {
        proof {
            use_type_invariant(&*self);
        }
        if self.idx > 0 {
            let at = self.idx - 1;
            self.idx = 0;
            let mut t: Vec<char> = Vec::new();
            core::mem::swap(&mut t, &mut self.text);
            t.remove(at);
            core::mem::swap(&mut t, &mut self.text);
            self.idx = at;
        }
    }

    /// Moves the insertion index one position left; at index 0 this is a
    /// no-op and the buffer state is unchanged.
    pub fn move_left(&mut self)
        ensures
            final(self).text() == old(self).text(),
            final(self).idx() == if old(self).idx() > 0 {
                (old(self).idx() - 1) as nat
            } else {
                0nat
            },
    {
        proof {
            use_type_invariant(&*self);
        }
        if self.idx > 0 {
            self.idx = self.idx - 1;
        }
    }

    /// Moves the insertion index one position right; at the end of the text
    /// this is a no-op and the buffer state is unchanged.
    pub fn move_right(&mut self)
        ensures
            final(self).text() == old(self).text(),
            final(self).idx() == if old(self).idx() < old(self).text().len() {
                old(self).idx() + 1
            } else {
                old(self).idx()
            },
    {
        proof {
            use_type_invariant(&*self);
        }
        if self.idx < self.text.len() {
            self.idx = self.idx + 1;
        }
    }

    /// Returns the buffered line as an owned value and resets the buffer to
    /// empty with the index at 0. This is the only way the contents leave
    /// the buffer; the returned value is independent of any later state.
    pub fn flush(&mut self) -> (line: Vec<char>)
        ensures
            line@ == old(self).text(),
            final(self).text() == Seq::<char>::empty(),
            final(self).idx() == 0,
    {
        self.idx = 0;
        let mut out: Vec<char> = Vec::new();
        core::mem::swap(&mut out, &mut self.text);
        out
    }
}

/// The abstract effect of [`LineBuffer::insert`] on a (text, index) pair.
pub open spec fn spec_insert(text: Seq<char>, idx: nat, c: char) -> (Seq<char>, nat)
    recommends
        idx <= text.len(),
{
    (text.insert(idx as int, c), idx + 1)
}

/// The abstract effect of [`LineBuffer::delete_back`] on a (text, index) pair.
pub open spec fn spec_delete_back(text: Seq<char>, idx: nat) -> (Seq<char>, nat)
    recommends
        idx <= text.len(),
{
    if idx == 0 {
        (text, idx)
    } else {
        (text.remove(idx - 1), (idx - 1) as nat)
    }
}

/// The state after inserting the characters of `cs`, in order, into state
/// (`text`, `idx`).
pub open spec fn spec_insert_all(text: Seq<char>, idx: nat, cs: Seq<char>) -> (Seq<char>, nat)
    decreases cs.len(),
{
    if cs.len() == 0 {
        (text, idx)
    } else {
        let one = spec_insert(text, idx, cs[0]);
        spec_insert_all(one.0, one.1, cs.skip(1))
    }
}

/// The state after `n` backspaces from state (`text`, `idx`).
pub open spec fn spec_delete_n(text: Seq<char>, idx: nat, n: nat) -> (Seq<char>, nat)
    decreases n,
{
    if n == 0 {
        (text, idx)
    } else {
        let one = spec_delete_back(text, idx);
        spec_delete_n(one.0, one.1, (n - 1) as nat)
    }
}

/// One backspace exactly undoes one insertion.
pub proof fn lemma_delete_undoes_insert(text: Seq<char>, idx: nat, c: char)
    requires
        idx <= text.len(),
    ensures
        spec_delete_back(spec_insert(text, idx, c).0, spec_insert(text, idx, c).1) == (text, idx),
{
    let inserted = spec_insert(text, idx, c);
    assert(inserted.0.remove(idx as int) =~= text);
}

/// Round trip: from any valid buffer state, inserting the characters
/// `cs[0]..cs[n-1]` and then issuing `n` backspaces returns the buffer to
/// exactly the state it started in. In particular, starting from the empty
/// buffer it returns to empty text with index 0.
pub proof fn lemma_insert_then_delete_round_trip(text: Seq<char>, idx: nat, cs: Seq<char>)
    requires
        idx <= text.len(),
    ensures
        ({
            let inserted = spec_insert_all(text, idx, cs);
            spec_delete_n(inserted.0, inserted.1, cs.len())
        }) == (text, idx),
    decreases cs.len(),
{
    if cs.len() == 0 {
    } else {
        let one = spec_insert(text, idx, cs[0]);
        lemma_insert_then_delete_round_trip(one.0, one.1, cs.skip(1));
        let inserted = spec_insert_all(text, idx, cs);
        assert(spec_delete_n(inserted.0, inserted.1, (cs.len() - 1) as nat) == one);
        lemma_delete_undoes_insert(text, idx, cs[0]);
        assert(spec_delete_n(inserted.0, inserted.1, cs.len())
            == spec_delete_back(one.0, one.1)) by {
            lemma_delete_n_unsnoc(inserted.0, inserted.1, cs.len());
        }
    }
}

/// Peeling the last of `n` backspaces: doing `n` is doing `n - 1` and then
/// one more.
proof fn lemma_delete_n_unsnoc(text: Seq<char>, idx: nat, n: nat)
    requires
        n > 0,
    ensures
        ({
            let most = spec_delete_n(text, idx, (n - 1) as nat);
            spec_delete_back(most.0, most.1)
        }) == spec_delete_n(text, idx, n),
    decreases n,
{
    reveal_with_fuel(spec_delete_n, 2);
    if n == 1 {
    } else {
        let one = spec_delete_back(text, idx);
        lemma_delete_n_unsnoc(one.0, one.1, (n - 1) as nat);
    }
}

} // verus!
