//! An ordered pool of live connections with an "active connection" cursor,
//! swept once per pass, where closing is deferred until the cursor moves on.

use vstd::prelude::*;
use vstd::seq_lib::{lemma_multiset_commutative, lemma_seq_union_to_multiset_commutative};

verus! {

/// The items and the cursor after one advance from `cursor`: a connection
/// marked for closing is replaced by the last one and the cursor stays;
/// otherwise the cursor moves one place on.
pub open spec fn advance_of<T>(items: Seq<T>, cursor: int, closing: bool) -> (Seq<T>, int) {
    if closing {
        (items.update(cursor, items.last()).drop_last(), cursor)
    } else {
        (items, cursor + 1)
    }
}

/// The connections visited by a pass that starts at `cursor`, in order, when
/// the handler marks the active connection for closing at the i-th visit
/// exactly when `closes[i]` is true (visits beyond `closes` mark nothing).
pub open spec fn pass_of<T>(items: Seq<T>, cursor: int, closes: Seq<bool>) -> Seq<T>
    decreases items.len() - cursor,
{
    if 0 <= cursor < items.len() {
        let close = closes.len() > 0 && closes[0];
        let next = advance_of(items, cursor, close);
        let later = if closes.len() > 0 {
            closes.drop_first()
        } else {
            closes
        };
        seq![items[cursor]] + pass_of(next.0, next.1, later)
    } else {
        Seq::empty()
    }
}

proof fn lemma_pass_from<T>(items: Seq<T>, cursor: int, closes: Seq<bool>)
    requires
        0 <= cursor <= items.len(),
    ensures
        pass_of(items, cursor, closes).to_multiset() == items.skip(cursor).to_multiset(),
    decreases items.len() - cursor,
{
    let t = items.skip(cursor);
    if cursor == items.len() {
        assert(t =~= Seq::<T>::empty());
        assert(pass_of(items, cursor, closes) =~= Seq::<T>::empty());
    } else {
        let close = closes.len() > 0 && closes[0];
        let next = advance_of(items, cursor, close);
        let later = if closes.len() > 0 {
            closes.drop_first()
        } else {
            closes
        };
        lemma_pass_from(next.0, next.1, later);
        let head = seq![items[cursor]];
        lemma_multiset_commutative(head, pass_of(next.0, next.1, later));
        assert(t =~= head + t.drop_first());
        lemma_multiset_commutative(head, t.drop_first());
        if close {
            let m = t.len() as int;
            if m == 1 {
                assert(next.0.skip(cursor) =~= t.drop_first());
            } else {
                let mid = t.subrange(1, m - 1);
                let tail = seq![t[m - 1]];
                assert(next.0.skip(cursor) =~= tail + mid);
                assert(t.drop_first() =~= mid + tail);
                lemma_seq_union_to_multiset_commutative(tail, mid);
            }
        } else {
            assert(next.0.skip(next.1) =~= t.drop_first());
        }
    }
}

/// A pass from the first connection visits every connection of the pool
/// exactly as many times as it occurs there, whatever the handler closes:
/// swap-removal never skips a connection and never visits one twice.
pub proof fn lemma_pass_visits_each_once<T>(items: Seq<T>, closes: Seq<bool>)
    ensures
        pass_of(items, 0, closes).to_multiset() == items.to_multiset(),
{
    lemma_pass_from(items, 0, closes);
    assert(items.skip(0) =~= items);
}

/// Connections with a cursor that marks the active one during a pass, and a
/// flag that defers closing it until the cursor moves on.
pub struct Pool<T> {
    conns: Vec<T>,
    cursor: usize,
    closing: bool,
}

impl<T> Pool<T> {
    /// The connections, in pool order.
    pub closed spec fn items(&self) -> Seq<T> {
        self.conns@
    }

    /// The index of the active connection.
    pub closed spec fn cursor(&self) -> int {
        self.cursor as int
    }

    /// Whether the active connection is marked for closing.
    pub closed spec fn closing(&self) -> bool {
        self.closing
    }

    /// An empty pool.
    pub fn new() -> (r: Pool<T>)
        ensures
            r.items() == Seq::<T>::empty(),
            r.cursor() == 0,
            !r.closing(),
    {
        Pool { conns: Vec::new(), cursor: 0, closing: false }
    }

    /// How many connections the pool holds.
    pub fn len(&self) -> (r: usize)
        ensures
            r as int == self.items().len(),
    {
        self.conns.len()
    }

    /// Adds a newly accepted connection at the end.
    pub fn push(&mut self, conn: T)
        ensures
            final(self).items() == old(self).items().push(conn),
            final(self).cursor() == old(self).cursor(),
            final(self).closing() == old(self).closing(),
    {
        self.conns.push(conn);
    }

    /// Starts a new pass at the first connection, with nothing marked.
    pub fn reset(&mut self)
        ensures
            final(self).items() == old(self).items(),
            final(self).cursor() == 0,
            !final(self).closing(),
    {
        self.cursor = 0;
        self.closing = false;
    }

    /// Whether the cursor is on a connection.
    pub fn can_advance(&self) -> (r: bool)
        ensures
            r == (0 <= self.cursor() < self.items().len()),
    {
        self.cursor < self.conns.len()
    }

    /// Moves off the active connection: removes it by swapping in the last
    /// connection if it was marked (the cursor then stays, so the swapped-in
    /// connection is still visited), or else moves the cursor on. Clears
    /// the mark either way.
    pub fn advance(&mut self)
        requires
            0 <= old(self).cursor() < old(self).items().len(),
        ensures
            (final(self).items(), final(self).cursor()) == advance_of(
                old(self).items(),
                old(self).cursor(),
                old(self).closing(),
            ),
            !final(self).closing(),
    {
        if self.closing {
            self.conns.swap_remove(self.cursor);
        } else {
            assert(self.cursor < self.conns.len());
            self.cursor = self.cursor + 1;
        }
        self.closing = false;
    }

    /// Marks the active connection for closing when the cursor moves on;
    /// marking twice is the same as marking once.
    pub fn close_conn(&mut self)
        ensures
            final(self).items() == old(self).items(),
            final(self).cursor() == old(self).cursor(),
            final(self).closing(),
    {
        self.closing = true;
    }

    /// The active connection.
    pub fn active(&self) -> (r: &T)
        requires
            0 <= self.cursor() < self.items().len(),
        ensures
            *r == self.items()[self.cursor()],
    {
        &self.conns[self.cursor]
    }

    /// The active connection, to act on it.
    pub fn active_mut(&mut self) -> (r: &mut T)
        requires
            0 <= old(self).cursor() < old(self).items().len(),
        ensures
            *r == old(self).items()[old(self).cursor()],
            final(self).items() == old(self).items().update(old(self).cursor(), *final(r)),
            final(self).cursor() == old(self).cursor(),
            final(self).closing() == old(self).closing(),
    {
        &mut self.conns[self.cursor]
    }

    /// The connection at `index`, to act on it (a broadcast reaches every
    /// connection this way).
    pub fn get_mut(&mut self, index: usize) -> (r: &mut T)
        requires
            index < old(self).items().len(),
        ensures
            *r == old(self).items()[index as int],
            final(self).items() == old(self).items().update(index as int, *final(r)),
            final(self).cursor() == old(self).cursor(),
            final(self).closing() == old(self).closing(),
    {
        &mut self.conns[index]
    }
}

impl<T: Copy> Pool<T> {
    /// Runs one whole pass from the first connection, marking the i-th
    /// visited connection for closing exactly when `closes[i]` is true, and
    /// returns the visits in order: every connection of the pool is visited
    /// exactly as often as it occurs there.
    pub fn sweep(&mut self, closes: &[bool]) -> (visited: Vec<T>)
        ensures
            visited@ == pass_of(old(self).items(), 0, closes@),
            visited@.to_multiset() == old(self).items().to_multiset(),
            !final(self).closing(),
    {
        let ghost items0 = self.items();
        let ghost cs = closes@;
        self.reset();
        let mut visited: Vec<T> = Vec::new();
        let n0 = self.len();
        let mut k: usize = 0;
        assert(cs.skip(0) =~= cs);
        while self.can_advance()
            invariant
                !self.closing(),
                0 <= self.cursor() <= self.items().len(),
                items0.len() == n0,
                cs == closes@,
                k <= items0.len(),
                k + self.items().len() - self.cursor() == items0.len(),
                visited@ + pass_of(
                    self.items(),
                    self.cursor(),
                    cs.skip(if k < cs.len() { k as int } else { cs.len() as int }),
                ) == pass_of(items0, 0, cs),
            decreases self.items().len() - self.cursor(),
        {
            let ghost rem = cs.skip(if k < cs.len() { k as int } else { cs.len() as int });
            let ghost before = visited@;
            let ghost items = self.items();
            let ghost cur = self.cursor();
            let ghost close = rem.len() > 0 && rem[0];
            assert(k < cs.len() ==> rem.len() > 0 && rem[0] == cs[k as int]);
            assert(k >= cs.len() ==> rem.len() == 0);
            let id = *self.active();
            visited.push(id);
            if k < closes.len() && closes[k] {
                self.close_conn();
            }
            assert(self.closing() == close);
            assert(self.items() == items && self.cursor() == cur);
            self.advance();
            assert((self.items(), self.cursor()) == advance_of(items, cur, close));
            k = k + 1;
            proof {
                let later = if rem.len() > 0 { rem.drop_first() } else { rem };
                assert(later =~= cs.skip(if k < cs.len() { k as int } else { cs.len() as int }));
                assert(pass_of(items, cur, rem) == seq![items[cur]] + pass_of(
                    self.items(),
                    self.cursor(),
                    later,
                ));
                assert(visited@ =~= before + seq![items[cur]]);
                assert(visited@ + pass_of(self.items(), self.cursor(), later) =~= before + pass_of(
                    items,
                    cur,
                    rem,
                ));
            }
        }
        proof {
            assert(pass_of(self.items(), self.cursor(), cs.skip(
                if k < cs.len() { k as int } else { cs.len() as int },
            )) =~= Seq::<T>::empty());
            assert(visited@ + Seq::<T>::empty() =~= visited@);
            lemma_pass_visits_each_once(items0, cs);
        }
        visited
    }
}

} // verus!
