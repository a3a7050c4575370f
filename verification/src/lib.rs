//! A fixed-capacity circular buffer for single-producer/single-consumer
//! hand-off.
//!
//! The buffer owns `S` slots and two cursors. The checked API keeps one slot
//! free as a sentinel, so that a buffer holding `S - 1` values is full and a
//! buffer whose cursors coincide is empty; usable capacity is therefore
//! `S - 1`. The unchecked write skips the fullness test: on a full buffer it
//! lets the write cursor catch up with the read cursor, and every unread
//! value becomes unobservable.
//!
//! The type holds no lock, atomic or fence: it is meant for exactly one
//! producer and one consumer, where the embedding environment makes plain
//! memory accesses visible across that boundary.

use vstd::prelude::*;

verus! {

/// A fixed-size circular buffer of `S` slots holding values of type `T`.
///
/// The producer owns the write cursor and the consumer the read cursor;
/// neither operation touches the other side's cursor.
pub struct RollingBuffer<const S: usize, T: Default + Copy> {
    data: [T; S],
    write_head: usize,
    read_head: usize,
}

impl<const S: usize, T: Default + Copy> View for RollingBuffer<S, T> {
    type V = Seq<T>;

    /// The unread values, oldest first.
    closed spec fn view(&self) -> Seq<T> {
        if self.read_head <= self.write_head {
            self.data@.subrange(self.read_head as int, self.write_head as int)
        } else {
            self.data@.subrange(self.read_head as int, S as int) + self.data@.subrange(
                0,
                self.write_head as int,
            )
        }
    }
}

impl<const S: usize, T: Default + Copy> RollingBuffer<S, T> {
    /// Both cursors lie inside the storage.
    pub closed spec fn wf(self) -> bool {
        self.write_head < S && self.read_head < S
    }

    /// The raw storage, sentinel slot and already-read slots included.
    pub closed spec fn storage(self) -> Seq<T> {
        self.data@
    }

    /// The slot the next read takes its value from.
    pub closed spec fn read_cursor(self) -> int {
        self.read_head as int
    }

    /// The slot the next write stores its value in.
    pub closed spec fn write_cursor(self) -> int {
        self.write_head as int
    }

    /// A buffer state with no room left for a checked write: one slot stays
    /// free, so `S - 1` unread values fill the buffer.
    pub open spec fn full(contents: Seq<T>) -> bool {
        contents.len() + 1 == S as int
    }

    /// What a checked write of `value` leaves in the buffer: refused on a
    /// full buffer, appended otherwise.
    pub open spec fn after_write(contents: Seq<T>, value: T) -> Seq<T> {
        if Self::full(contents) {
            contents
        } else {
            contents.push(value)
        }
    }

    /// The value a read hands back: the oldest unread value, if any.
    pub open spec fn front(contents: Seq<T>) -> Option<T> {
        if contents.len() == 0 {
            None
        } else {
            Some(contents[0])
        }
    }

    /// What a read leaves in the buffer: an empty buffer is untouched,
    /// otherwise the oldest value is taken out.
    pub open spec fn after_read(contents: Seq<T>) -> Seq<T> {
        if contents.len() == 0 {
            contents
        } else {
            contents.drop_first()
        }
    }

    /// What an unchecked write of `value` leaves in the buffer. On a full
    /// buffer the write cursor lands on the read cursor, which is the empty
    /// condition: every unread value becomes unobservable at once.
    pub open spec fn after_write_unchecked(contents: Seq<T>, value: T) -> Seq<T> {
        if Self::full(contents) {
            Seq::empty()
        } else {
            contents.push(value)
        }
    }

    /// How many unread values the cursors enclose.
    proof fn lemma_contents_len(self)
        requires
            self.wf(),
        ensures
            self@.len() == if self.read_head <= self.write_head {
                self.write_head - self.read_head
            } else {
                S - self.read_head + self.write_head
            },
            self@.len() + 1 <= S as int,
            (self@.len() == 0) <==> self.read_head == self.write_head,
            Self::full(self@) <==> (self.write_head + 1) % (S as int) == self.read_head,
    {
        vstd::arithmetic::div_mod::lemma_mod_self_0(S as int);
        if self.write_head + 1 < S {
            vstd::arithmetic::div_mod::lemma_small_mod((self.write_head + 1) as nat, S as nat);
        }
    }

    /// Creates a buffer with every slot holding `def` and both cursors at the
    /// first slot, so that nothing is pending to be read.
    pub fn new(def: T) -> (buf: Self)
        requires
            S >= 1,
        ensures
            buf.wf(),
            buf@ == Seq::<T>::empty(),
            buf.storage().len() == S,
            forall|i: int| 0 <= i < S ==> #[trigger] buf.storage()[i] == def,
            buf.read_cursor() == 0,
            buf.write_cursor() == 0,
    {
        let buf = Self { data: [def; S], write_head: 0, read_head: 0 };
        proof {
            assert(buf@ =~= Seq::<T>::empty());
        }
        buf
    }

    /// Advances a cursor by one slot, wrapping past the last slot to the
    /// first. A branch, not a division: `S` is known at compile time.
    fn increase_head(index: usize) -> (next: usize)
        requires
            index < S,
        ensures
            next < S,
            next == (index + 1) % (S as int),
            index + 1 < S ==> next == index + 1,
            index + 1 == S ==> next == 0,
    {
        let t = index + 1;
        if t == S {
            proof {
                vstd::arithmetic::div_mod::lemma_mod_self_0(S as int);
            }
            0
        } else {
            proof {
                vstd::arithmetic::div_mod::lemma_small_mod((index + 1) as nat, S as nat);
            }
            t
        }
    }

    /// Checked write: stores `value` and advances the write cursor, unless
    /// the buffer is full, in which case nothing changes and the call
    /// reports the refusal. `false` is a normal outcome — "try again later" —
    /// and the caller owns the retry policy. Never blocks and never panics.
    pub fn write(&mut self, value: T) -> (accepted: bool)
        requires
            old(self).wf(),
        ensures
            final(self).wf(),
            accepted == !Self::full(old(self)@),
            final(self)@ == Self::after_write(old(self)@, value),
            accepted ==> final(self)@ == old(self)@.push(value),
            !accepted ==> *final(self) == *old(self),
            final(self).read_cursor() == old(self).read_cursor(),
            accepted ==> final(self).write_cursor() == (old(self).write_cursor() + 1) % (
            S as int),
            accepted ==> final(self).storage() == old(self).storage().update(
                old(self).write_cursor(),
                value,
            ),
    {
        proof {
            self.lemma_contents_len();
        }
        let next = Self::increase_head(self.write_head);
        if next == self.read_head {
            return false;
        }
        self.data[self.write_head] = value;
        let ghost mid = *self;
        self.write_head = next;
        proof {
            assert(self@ =~= old(self)@.push(value)) by {
                assert(mid.data@ == old(self).data@.update(old(self).write_head as int, value));
            }
        }
        true
    }

    /// Checked read: hands back the oldest unread value and advances the
    /// read cursor, or reports emptiness and changes nothing. The buffer is
    /// empty exactly when the two cursors coincide.
    pub fn read(&mut self) -> (value: Option<T>)
        requires
            old(self).wf(),
        ensures
            final(self).wf(),
            value == Self::front(old(self)@),
            final(self)@ == Self::after_read(old(self)@),
            old(self)@.len() == 0 ==> value is None && *final(self) == *old(self),
            old(self)@.len() > 0 ==> value == Some(old(self)@[0]) && final(self)@ == old(
                self,
            )@.drop_first(),
            final(self).write_cursor() == old(self).write_cursor(),
            final(self).storage() == old(self).storage(),
            old(self)@.len() > 0 ==> final(self).read_cursor() == (old(self).read_cursor() + 1) % (
            S as int),
    {
        proof {
            self.lemma_contents_len();
        }
        if self.read_head != self.write_head {
            let next = Self::increase_head(self.read_head);
            let ret = Some(self.data[self.read_head]);
            self.read_head = next;
            proof {
                assert(self@ =~= old(self)@.drop_first());
            }
            ret
        } else {
            None
        }
    }

    /// Unchecked write: stores `value` and advances the write cursor without
    /// testing for fullness. Pairing it with a consumer that does not keep up
    /// is a contract violation on the caller's side, not a reported error:
    /// on a full buffer the write cursor catches up with the read cursor and
    /// every unread value silently becomes unobservable. The cursors stay
    /// within bounds and the emptiness test stays consistent throughout.
    pub fn write_unchecked(&mut self, value: T)
        requires
            old(self).wf(),
        ensures
            final(self).wf(),
            final(self)@ == Self::after_write_unchecked(old(self)@, value),
            !Self::full(old(self)@) ==> final(self)@ == old(self)@.push(value),
            Self::full(old(self)@) ==> final(self)@ == Seq::<T>::empty(),
            final(self).read_cursor() == old(self).read_cursor(),
            final(self).write_cursor() == (old(self).write_cursor() + 1) % (S as int),
            final(self).storage() == old(self).storage().update(old(self).write_cursor(), value),
    {
        proof {
            self.lemma_contents_len();
        }
        self.data[self.write_head] = value;
        let ghost mid = *self;
        self.write_head = Self::increase_head(self.write_head);
        proof {
            assert(mid.data@ == old(self).data@.update(old(self).write_head as int, value));
            if Self::full(old(self)@) {
                assert(self@ =~= Seq::<T>::empty());
            } else {
                assert(self@ =~= old(self)@.push(value));
            }
        }
    }

    /// Unchecked read: the same emptiness test, value and cursor advance as
    /// the checked read. It is "unchecked" only as the counterpart meant for
    /// pairing with the unchecked write; it is itself bounds-safe.
    pub fn read_unchecked(&mut self) -> (value: Option<T>)
        requires
            old(self).wf(),
        ensures
            final(self).wf(),
            value == Self::front(old(self)@),
            final(self)@ == Self::after_read(old(self)@),
            old(self)@.len() == 0 ==> value is None && *final(self) == *old(self),
            old(self)@.len() > 0 ==> value == Some(old(self)@[0]) && final(self)@ == old(
                self,
            )@.drop_first(),
            final(self).write_cursor() == old(self).write_cursor(),
            final(self).storage() == old(self).storage(),
            old(self)@.len() > 0 ==> final(self).read_cursor() == (old(self).read_cursor() + 1) % (
            S as int),
    {
        proof {
            self.lemma_contents_len();
        }
        if self.read_head != self.write_head {
            let ret = Some(self.data[self.read_head]);
            self.read_head = Self::increase_head(self.read_head);
            proof {
                assert(self@ =~= old(self)@.drop_first());
            }
            ret
        } else {
            None
        }
    }

    /// The value held in slot `index` of the backing storage, whether or not
    /// it is pending to be read.
    pub fn slot(&self, index: usize) -> (value: T)
        requires
            self.wf(),
            index < S,
        ensures
            value == self.storage()[index as int],
    {
        self.data[index]
    }

    /// A copy of the whole backing storage, slot by slot.
    pub fn slots(&self) -> (all: Vec<T>)
        requires
            self.wf(),
        ensures
            all@ == self.storage(),
    {
        let mut all: Vec<T> = Vec::new();
        let mut i: usize = 0;
        while i < S
            invariant
                i <= S,
                self.wf(),
                all@ =~= self.storage().subrange(0, i as int),
            decreases S - i,
        {
            all.push(self.data[i]);
            i += 1;
        }
        proof {
            assert(all@ =~= self.storage());
        }
        all
    }

    /// Buffer contents after writing each of `values` in order with the
    /// checked write; refused values leave the buffer as it was.
    pub open spec fn after_writes(contents: Seq<T>, values: Seq<T>) -> Seq<T>
        decreases values.len(),
    {
        if values.len() == 0 {
            contents
        } else {
            Self::after_writes(Self::after_write(contents, values[0]), values.drop_first())
        }
    }

    /// Whether every one of `values`, written in order with the checked
    /// write, would be accepted.
    pub open spec fn writes_accepted(contents: Seq<T>, values: Seq<T>) -> bool
        decreases values.len(),
    {
        values.len() == 0 || (!Self::full(contents) && Self::writes_accepted(
            Self::after_write(contents, values[0]),
            values.drop_first(),
        ))
    }

    /// Buffer contents after `count` reads.
    pub open spec fn after_reads(contents: Seq<T>, count: nat) -> Seq<T>
        decreases count,
    {
        if count == 0 {
            contents
        } else {
            Self::after_reads(Self::after_read(contents), (count - 1) as nat)
        }
    }

    /// The values that `count` reads hand back, in reading order; a read of
    /// an empty buffer hands back nothing and adds nothing.
    pub open spec fn values_read(contents: Seq<T>, count: nat) -> Seq<T>
        decreases count,
    {
        if count == 0 || contents.len() == 0 {
            Seq::empty()
        } else {
            seq![contents[0]] + Self::values_read(contents.drop_first(), (count - 1) as nat)
        }
    }

    /// Buffer contents after writing each of `values` in order with the
    /// unchecked write.
    pub open spec fn after_writes_unchecked(contents: Seq<T>, values: Seq<T>) -> Seq<T>
        decreases values.len(),
    {
        if values.len() == 0 {
            contents
        } else {
            Self::after_writes_unchecked(
                Self::after_write_unchecked(contents, values[0]),
                values.drop_first(),
            )
        }
    }

    /// One full cycle: write every one of `values`, then read as many times.
    pub open spec fn after_cycle(contents: Seq<T>, values: Seq<T>) -> Seq<T> {
        Self::after_reads(Self::after_writes(contents, values), values.len())
    }

    /// Buffer contents after `count` full write-then-read cycles of `values`.
    pub open spec fn after_cycles(contents: Seq<T>, values: Seq<T>, count: nat) -> Seq<T>
        decreases count,
    {
        if count == 0 {
            contents
        } else {
            Self::after_cycle(Self::after_cycles(contents, values, (count - 1) as nat), values)
        }
    }

    /// Invariants of every well-formed buffer: both cursors lie in `[0, S)`;
    /// at most `S - 1` values are unread; the buffer is empty exactly when
    /// the cursors coincide, and full exactly when the write cursor is one
    /// wrapped step behind the read cursor.
    pub proof fn lemma_cursor_invariants(self)
        requires
            self.wf(),
        ensures
            0 <= self.read_cursor() < S,
            0 <= self.write_cursor() < S,
            self@.len() + 1 <= S as int,
            (self@.len() == 0) <==> self.read_cursor() == self.write_cursor(),
            Self::full(self@) <==> (self.write_cursor() + 1) % (S as int) == self.read_cursor(),
    {
        self.lemma_contents_len();
    }

    /// Writes that fit are all accepted, and leave the buffer holding the
    /// old contents followed by the new values.
    pub proof fn lemma_writes_fit(contents: Seq<T>, values: Seq<T>)
        requires
            contents.len() + values.len() + 1 <= S as int,
        ensures
            Self::writes_accepted(contents, values),
            Self::after_writes(contents, values) == contents + values,
        decreases values.len(),
    {
        if values.len() == 0 {
            assert(contents + values =~= contents);
        } else {
            Self::lemma_writes_fit(contents.push(values[0]), values.drop_first());
            assert(contents.push(values[0]) + values.drop_first() =~= contents + values);
        }
    }

    /// Capacity: from an empty buffer of `S` slots, `S - 1` successive
    /// checked writes are all accepted and leave exactly the written values;
    /// the buffer is then full, so one more write of any value is refused
    /// and changes nothing.
    pub proof fn lemma_capacity(values: Seq<T>)
        requires
            values.len() + 1 == S as int,
        ensures
            Self::writes_accepted(Seq::empty(), values),
            Self::after_writes(Seq::empty(), values) == values,
            Self::full(Self::after_writes(Seq::empty(), values)),
            forall|v: T|
                #[trigger] Self::after_write(Self::after_writes(Seq::empty(), values), v)
                    == Self::after_writes(Seq::empty(), values),
    {
        Self::lemma_writes_fit(Seq::empty(), values);
        assert(Seq::empty() + values =~= values);
    }

    /// Reading drains in first-in-first-out order: `count` reads from a
    /// buffer holding `contents` hand back the first `count` values, in
    /// writing order, and leave the rest unread.
    pub proof fn lemma_reads_drain(contents: Seq<T>, count: nat)
        requires
            count <= contents.len(),
        ensures
            Self::values_read(contents, count) == contents.take(count as int),
            Self::after_reads(contents, count) == contents.skip(count as int),
        decreases count,
    {
        if count == 0 {
            assert(contents.take(0) =~= Seq::<T>::empty());
            assert(contents.skip(0) =~= contents);
        } else {
            Self::lemma_reads_drain(contents.drop_first(), (count - 1) as nat);
            assert(seq![contents[0]] + contents.drop_first().take(count as int - 1)
                =~= contents.take(count as int));
            assert(contents.drop_first().skip(count as int - 1) =~= contents.skip(count as int));
        }
    }

    /// First-in-first-out: write any values that fit into an empty buffer,
    /// then read them all back; the reads hand back exactly the written
    /// values, in the order they were written.
    pub proof fn lemma_fifo(values: Seq<T>)
        requires
            values.len() + 1 <= S as int,
        ensures
            Self::writes_accepted(Seq::empty(), values),
            Self::values_read(Self::after_writes(Seq::empty(), values), values.len()) == values,
    {
        Self::lemma_writes_fit(Seq::empty(), values);
        assert(Seq::empty() + values =~= values);
        Self::lemma_reads_drain(values, values.len());
        assert(values.take(values.len() as int) =~= values);
    }

    /// Reads of an empty buffer hand back nothing and leave it empty,
    /// however often they are repeated.
    pub proof fn lemma_reads_when_empty(count: nat)
        ensures
            Self::after_reads(Seq::empty(), count) == Seq::<T>::empty(),
            Self::values_read(Seq::empty(), count) == Seq::<T>::empty(),
        decreases count,
    {
        if count > 0 {
            Self::lemma_reads_when_empty((count - 1) as nat);
        }
    }

    /// Empty after drain: write `k <= S - 1` values into an empty buffer and
    /// read exactly `k` times, and the buffer is empty again; any number of
    /// further reads hands back nothing and leaves it empty.
    pub proof fn lemma_empty_after_drain(values: Seq<T>, extra: nat)
        requires
            values.len() + 1 <= S as int,
        ensures
            Self::after_cycle(Seq::empty(), values) == Seq::<T>::empty(),
            Self::after_reads(Self::after_cycle(Seq::empty(), values), extra) == Seq::<T>::empty(),
            Self::values_read(Self::after_cycle(Seq::empty(), values), extra) == Seq::<T>::empty(),
    {
        Self::lemma_writes_fit(Seq::empty(), values);
        assert(Seq::empty() + values =~= values);
        Self::lemma_reads_drain(values, values.len());
        assert(values.skip(values.len() as int) =~= Seq::<T>::empty());
        Self::lemma_reads_when_empty(extra);
    }

    /// Wraparound: however many full write-then-read cycles have already
    /// run — enough to wrap the cursors past `S` any number of times — the
    /// buffer is empty again, every write of the next cycle is accepted, and
    /// the next cycle's reads hand back its values in order: each cycle
    /// behaves exactly like the first.
    pub proof fn lemma_wraparound(values: Seq<T>, count: nat)
        requires
            values.len() + 1 <= S as int,
        ensures
            Self::after_cycles(Seq::empty(), values, count) == Seq::<T>::empty(),
            Self::writes_accepted(Self::after_cycles(Seq::empty(), values, count), values),
            Self::values_read(
                Self::after_writes(Self::after_cycles(Seq::empty(), values, count), values),
                values.len(),
            ) == values,
        decreases count,
    {
        if count > 0 {
            Self::lemma_wraparound(values, (count - 1) as nat);
        }
        Self::lemma_empty_after_drain(values, 0);
        Self::lemma_fifo(values);
    }

    /// Unchecked writes distribute over splitting the written values.
    proof fn lemma_unchecked_writes_split(contents: Seq<T>, first: Seq<T>, rest: Seq<T>)
        ensures
            Self::after_writes_unchecked(contents, first + rest) == Self::after_writes_unchecked(
                Self::after_writes_unchecked(contents, first),
                rest,
            ),
        decreases first.len(),
    {
        if first.len() == 0 {
            assert(first + rest =~= rest);
        } else {
            assert((first + rest)[0] == first[0]);
            assert((first + rest).drop_first() =~= first.drop_first() + rest);
            Self::lemma_unchecked_writes_split(
                Self::after_write_unchecked(contents, first[0]),
                first.drop_first(),
                rest,
            );
        }
    }

    /// Unchecked writes that fit behave exactly like checked writes.
    pub proof fn lemma_unchecked_writes_fit(contents: Seq<T>, values: Seq<T>)
        requires
            contents.len() + values.len() + 1 <= S as int,
        ensures
            Self::after_writes_unchecked(contents, values) == contents + values,
        decreases values.len(),
    {
        if values.len() == 0 {
            assert(contents + values =~= contents);
        } else {
            Self::lemma_unchecked_writes_fit(contents.push(values[0]), values.drop_first());
            assert(contents.push(values[0]) + values.drop_first() =~= contents + values);
        }
    }

    /// Unchecked overwrite: writing one value more than the capacity into an
    /// empty buffer without reading in between makes every written value —
    /// the oldest ones included — unobservable: the write cursor has caught
    /// up with the read cursor, the buffer tests empty, and any number of
    /// subsequent reads hands back nothing. Data loss, not corruption.
    pub proof fn lemma_unchecked_overwrite(values: Seq<T>, extra: nat)
        requires
            values.len() == S as int,
        ensures
            Self::after_writes_unchecked(Seq::empty(), values) == Seq::<T>::empty(),
            Self::values_read(Self::after_writes_unchecked(Seq::empty(), values), extra)
                == Seq::<T>::empty(),
    {
        if values.len() == 0 {
            Self::lemma_reads_when_empty(extra);
        } else {
            let filling = values.take(S as int - 1);
            let last = seq![values[S as int - 1]];
            assert(values =~= filling + last);
            Self::lemma_unchecked_writes_split(Seq::empty(), filling, last);
            Self::lemma_unchecked_writes_fit(Seq::empty(), filling);
            assert(Seq::empty() + filling =~= filling);
            assert(Self::full(filling));
            assert(Self::after_write_unchecked(filling, last[0]) =~= Seq::<T>::empty());
            assert(last.drop_first() =~= Seq::<T>::empty());
            assert(Self::after_writes_unchecked(Seq::<T>::empty(), last.drop_first())
                == Seq::<T>::empty());
            assert(Self::after_writes_unchecked(filling, last) == Seq::<T>::empty());
            Self::lemma_reads_when_empty(extra);
        }
    }
}

} // verus!
