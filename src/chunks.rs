use vstd::prelude::*;

use crate::Upstream;
use vstd::arithmetic::div_mod::{lemma_div_plus_one, lemma_mod_add_multiples_vanish, lemma_small_mod};

verus! {

/// What the chunk buffer decided after one poll of its upstream.
///
/// `B` is a batch: a `Vec<T>` in executable code, a `Seq<T>` in the model.
pub enum ChunkStep<B> {
    /// an item was buffered without filling the buffer: poll the upstream again
    PollAgain,
    /// the upstream is not ready: suspend, keeping the buffer
    Pending,
    /// a batch is produced
    Batch(B),
    /// no batch will ever be produced again
    Exhausted,
}

/// The model of an executable step.
pub open spec fn step_view<T>(s: ChunkStep<Vec<T>>) -> ChunkStep<Seq<T>> {
    match s {
        ChunkStep::PollAgain => ChunkStep::PollAgain,
        ChunkStep::Pending => ChunkStep::Pending,
        ChunkStep::Batch(v) => ChunkStep::Batch(v@),
        ChunkStep::Exhausted => ChunkStep::Exhausted,
    }
}

/// One step of the chunk buffer: from the buffered items, whether the upstream
/// has been seen exhausted, the capacity and what the upstream reported, to the
/// new buffer, the new exhaustion flag and the step taken.
///
/// Once exhausted the upstream is not consulted again: `ev` is ignored.
pub open spec fn chunk_model<T>(buf: Seq<T>, done: bool, cap: nat, ev: Upstream<T>) -> (Seq<T>, bool, ChunkStep<Seq<T>>) {
    if done {
        (buf, true, ChunkStep::Exhausted)
    } else {
        match ev {
            Upstream::Item(x) => if buf.len() + 1 >= cap {
                (Seq::empty(), false, ChunkStep::Batch(buf.push(x)))
            } else {
                (buf.push(x), false, ChunkStep::PollAgain)
            },
            Upstream::Pending => (buf, false, ChunkStep::Pending),
            Upstream::Exhausted => if buf.len() == 0 {
                (buf, true, ChunkStep::Exhausted)
            } else {
                (Seq::empty(), true, ChunkStep::Batch(buf))
            },
        }
    }
}

/// A size estimate grown by `extra` pending batches: the lower bound saturates,
/// the upper bound becomes unknown where it would overflow.
pub open spec fn hint_plus(hint: (usize, Option<usize>), extra: nat) -> (usize, Option<usize>) {
    (
        if hint.0 + extra > usize::MAX { usize::MAX } else { (hint.0 + extra) as usize },
        match hint.1 {
            Some(h) => if h + extra > usize::MAX { None } else { Some((h + extra) as usize) },
            None => None,
        },
    )
}


/// `s` cut into consecutive batches of `n` items, the last one possibly shorter.
pub open spec fn batches_of<T>(s: Seq<T>, n: nat) -> Seq<Seq<T>>
    decreases s.len(),
{
    if s.len() == 0 || n == 0 {
        Seq::empty()
    } else if s.len() <= n {
        seq![s]
    } else {
        seq![s.take(n as int)] + batches_of(s.skip(n as int), n)
    }
}

/// The items among a series of upstream polls, in order.
pub open spec fn items_of<T>(evs: Seq<Upstream<T>>) -> Seq<T>
    decreases evs.len(),
{
    if evs.len() == 0 {
        Seq::empty()
    } else {
        let rest = items_of(evs.drop_first());
        match evs[0] {
            Upstream::Item(x) => seq![x] + rest,
            _ => rest,
        }
    }
}

/// Whether a series of upstream polls holds no exhaustion.
pub open spec fn no_exhaustion<T>(evs: Seq<Upstream<T>>) -> bool {
    forall|i: int| 0 <= i < evs.len() ==> !(#[trigger] evs[i] is Exhausted)
}

/// The batches produced when the chunk buffer, from the given state, is fed the
/// upstream polls `evs` one after the other.
pub open spec fn run_chunks<T>(buf: Seq<T>, done: bool, cap: nat, evs: Seq<Upstream<T>>) -> Seq<Seq<T>>
    decreases evs.len(),
{
    if evs.len() == 0 {
        Seq::empty()
    } else {
        let (b, d, out) = chunk_model(buf, done, cap, evs[0]);
        let rest = run_chunks(b, d, cap, evs.drop_first());
        match out {
            ChunkStep::Batch(v) => seq![v] + rest,
            _ => rest,
        }
    }
}

/// Batches of `n > 0` items: `ceil(L / n)` of them, all full but the last,
/// which holds `L mod n` items when that is not zero; together, in order,
/// they are `s` itself.
pub proof fn lemma_batches_exact<T>(s: Seq<T>, n: nat)
    requires
        n > 0,
    ensures
        batches_of(s, n).len() == (s.len() as int + n - 1) / (n as int),
        forall|i: int| 0 <= i < (s.len() as int) / (n as int) ==> (#[trigger] batches_of(s, n)[i]).len() == n,
        (s.len() as int) % (n as int) != 0 ==> batches_of(s, n).last().len() == (s.len() as int) % (n as int),
        forall|i: int| 0 <= i < batches_of(s, n).len() ==> (#[trigger] batches_of(s, n)[i]).len() > 0,
        batches_of(s, n).flatten() == s,
    decreases s.len(),
{
    let l = s.len() as int;
    let ni = n as int;
    let b = batches_of(s, n);
    if l == 0 {
        assert(b.flatten() =~= s);
        assert((ni - 1) / ni == 0) by { lemma_small_mod((n - 1) as nat, n); vstd::arithmetic::div_mod::lemma_basic_div(ni - 1, ni); }
        assert(0int / ni == 0);
    } else if l <= ni {
        vstd::arithmetic::div_mod::lemma_basic_div(l - 1, ni);
        lemma_div_plus_one(l - 1, ni);
        assert((l + ni - 1) / ni == 1);
        if l < ni {
            vstd::arithmetic::div_mod::lemma_basic_div(l, ni);
            lemma_small_mod(l as nat, n);
        } else {
            vstd::arithmetic::div_mod::lemma_div_by_self(ni);
            vstd::arithmetic::div_mod::lemma_mod_self_0(ni);
        }
        assert(b.drop_first() =~= Seq::<Seq<T>>::empty());
        assert(Seq::<Seq<T>>::empty().flatten() =~= Seq::<T>::empty());
        assert(b.flatten() =~= s);
    } else {
        let rest = s.skip(ni);
        lemma_batches_exact(rest, n);
        let br = batches_of(rest, n);
        assert(b == seq![s.take(ni)] + br);
        lemma_div_plus_one(rest.len() + ni - 1, ni);
        assert(l + ni - 1 == ni + (rest.len() + ni - 1));
        lemma_div_plus_one(rest.len() as int, ni);
        assert(l == ni + rest.len());
        lemma_mod_add_multiples_vanish(rest.len() as int, ni);
        vstd::arithmetic::div_mod::lemma_div_is_ordered(rest.len() as int, rest.len() + ni - 1, ni);
        assert forall|i: int| 0 <= i < l / ni implies (#[trigger] b[i]).len() == n by {
            if i > 0 {
                assert(b[i] == br[i - 1]);
            }
        }
        assert forall|i: int| 0 <= i < b.len() implies (#[trigger] b[i]).len() > 0 by {
            if i > 0 {
                assert(b[i] == br[i - 1]);
            }
        }
        assert(b.drop_first() =~= br);
        assert(s =~= s.take(ni) + rest);
    }
}

/// Feeding the chunk buffer a series of upstream polls without exhaustion, then
/// one exhaustion, produces the batches of the buffered items followed by the
/// items polled: whatever suspensions stand between the items.
proof fn lemma_run_from<T>(buf: Seq<T>, cap: nat, evs: Seq<Upstream<T>>)
    requires
        0 < cap,
        buf.len() < cap,
        no_exhaustion(evs),
    ensures
        run_chunks(buf, false, cap, evs.push(Upstream::Exhausted)) == batches_of(buf + items_of(evs), cap),
    decreases evs.len(),
{
    let all = evs.push(Upstream::Exhausted);
    if evs.len() == 0 {
        assert(all.drop_first() =~= Seq::<Upstream<T>>::empty());
        assert(buf + items_of(evs) =~= buf);
        assert(run_chunks(Seq::<T>::empty(), true, cap, all.drop_first()) == Seq::<Seq<T>>::empty());
        if buf.len() > 0 {
            assert(seq![buf] + Seq::<Seq<T>>::empty() =~= seq![buf]);
            assert(batches_of(buf, cap) == seq![buf]);
        } else {
            assert(batches_of(buf, cap) == Seq::<Seq<T>>::empty());
        }
    } else {
        let rest = evs.drop_first();
        assert(all[0] == evs[0]);
        assert(all.drop_first() =~= rest.push(Upstream::Exhausted));
        assert(no_exhaustion(rest)) by {
            assert forall|i: int| 0 <= i < rest.len() implies !(#[trigger] rest[i] is Exhausted) by {
                assert(rest[i] == evs[i + 1]);
            }
        }
        assert(!(evs[0] is Exhausted));
        match evs[0] {
            Upstream::Item(x) => {
                let b1 = buf.push(x);
                assert(buf + items_of(evs) =~= b1 + items_of(rest));
                if b1.len() >= cap {
                    lemma_run_from(Seq::empty(), cap, rest);
                    assert(Seq::<T>::empty() + items_of(rest) =~= items_of(rest));
                    let whole = b1 + items_of(rest);
                    if items_of(rest).len() == 0 {
                        assert(whole =~= b1);
                        assert(seq![b1] + Seq::<Seq<T>>::empty() =~= seq![b1]);
                    } else {
                        assert(whole.take(cap as int) =~= b1);
                        assert(whole.skip(cap as int) =~= items_of(rest));
                    }
                    assert(run_chunks(buf, false, cap, all) == batches_of(buf + items_of(evs), cap));
                } else {
                    lemma_run_from(b1, cap, rest);
                    assert(run_chunks(buf, false, cap, all) == batches_of(buf + items_of(evs), cap));
                }
            },
            _ => {
                lemma_run_from(buf, cap, rest);
                assert(items_of(evs) == items_of(rest));
                assert(run_chunks(buf, false, cap, all) == batches_of(buf + items_of(evs), cap));
            },
        }
    }
}

/// Whatever suspensions the upstream interleaves with its items, the chunk
/// buffer, from its initial state, produces exactly the batches of those items.
pub proof fn lemma_suspension_transparent<T>(cap: nat, evs: Seq<Upstream<T>>)
    requires
        0 < cap,
        no_exhaustion(evs),
    ensures
        run_chunks(Seq::empty(), false, cap, evs.push(Upstream::Exhausted)) == batches_of(items_of(evs), cap),
{
    lemma_run_from(Seq::empty(), cap, evs);
    assert(Seq::<T>::empty() + items_of(evs) =~= items_of(evs));
}

/// The upstream polls that produce the items of `s` one by one, then exhaustion.
pub open spec fn feed<T>(s: Seq<T>) -> Seq<Upstream<T>> {
    s.map_values(|x: T| Upstream::Item(x)).push(Upstream::Exhausted)
}

/// Fed the items of `s` and then exhaustion, the chunk buffer produces the
/// batches of `s`: `ceil(L / n)` batches, all of `n` items but the last, which
/// holds `L mod n` when that is not zero, together reproducing `s`.
pub proof fn lemma_chunking_exact<T>(s: Seq<T>, n: nat)
    requires
        n > 0,
    ensures
        run_chunks(Seq::empty(), false, n, feed(s)) == batches_of(s, n),
        batches_of(s, n).len() == (s.len() as int + n - 1) / (n as int),
        forall|i: int| 0 <= i < (s.len() as int) / (n as int) ==> (#[trigger] batches_of(s, n)[i]).len() == n,
        (s.len() as int) % (n as int) != 0 ==> batches_of(s, n).last().len() == (s.len() as int) % (n as int),
        batches_of(s, n).flatten() == s,
{
    let evs = s.map_values(|x: T| Upstream::Item(x));
    assert(no_exhaustion(evs));
    lemma_items_of_items(s);
    lemma_suspension_transparent(n, evs);
    lemma_batches_exact(s, n);
}

proof fn lemma_items_of_items<T>(s: Seq<T>)
    ensures
        items_of(s.map_values(|x: T| Upstream::Item(x))) == s,
    decreases s.len(),
{
    let evs = s.map_values(|x: T| Upstream::Item(x));
    if s.len() > 0 {
        lemma_items_of_items(s.drop_first());
        assert(evs.drop_first() =~= s.drop_first().map_values(|x: T| Upstream::Item(x)));
        assert(s =~= seq![s[0]] + s.drop_first());
    } else {
        assert(items_of(evs) =~= s);
    }
}

/// Once the upstream is done and the buffer empty, no poll produces a batch
/// and the state stays as it is.
pub proof fn lemma_fused<T>(cap: nat, evs: Seq<Upstream<T>>)
    ensures
        run_chunks(Seq::empty(), true, cap, evs) == Seq::<Seq<T>>::empty(),
        forall|i: int| 0 <= i < evs.len() ==> #[trigger] chunk_model(Seq::<T>::empty(), true, cap, evs[i])
            == (Seq::<T>::empty(), true, ChunkStep::<Seq<T>>::Exhausted),
    decreases evs.len(),
{
    if evs.len() > 0 {
        lemma_fused(cap, evs.drop_first());
    }
}

/// Regroups the items of an upstream sequence into batches of `capacity` items;
/// the last batch may be shorter. The upstream is fused: once it has reported
/// exhaustion it is never polled again.
pub struct Chunks<T> {
    items: Vec<T>,
    cap: usize,
    done: bool,
}

impl<T> Chunks<T> {
    /// The items buffered and not yet produced.
    pub closed spec fn buffered(&self) -> Seq<T> {
        self.items@
    }

    /// The size of a full batch.
    pub closed spec fn capacity(&self) -> nat {
        self.cap as nat
    }

    /// Whether the upstream has reported exhaustion.
    pub closed spec fn upstream_done(&self) -> bool {
        self.done
    }

    /// The buffer is never left full, and is empty once the upstream is done.
    pub open spec fn wf(&self) -> bool {
        &&& 0 < self.capacity()
        &&& self.buffered().len() < self.capacity()
        &&& self.upstream_done() ==> self.buffered().len() == 0
    }

    /// A buffer for batches of `capacity` items, over an upstream not yet polled.
    pub fn new(capacity: usize) -> (r: Self)
        requires
            capacity > 0,
        ensures
            r.wf(),
            r.buffered() == Seq::<T>::empty(),
            r.capacity() == capacity,
            !r.upstream_done(),
    {
        Chunks { items: Vec::with_capacity(capacity), cap: capacity, done: false }
    }

    /// Hands out the buffer, leaving an empty one of the same capacity.
    fn take(&mut self) -> (r: Vec<T>)
        ensures
            r@ == old(self).items@,
            final(self).items@ == Seq::<T>::empty(),
            final(self).cap == old(self).cap,
            final(self).done == old(self).done,
    {
        let mut fresh: Vec<T> = Vec::with_capacity(self.cap);
        std::mem::swap(&mut self.items, &mut fresh);
        fresh
    }

    /// Whether the upstream is to be polled: false once it is exhausted, when
    /// `Upstream::Exhausted` stands for the poll.
    pub fn upstream_live(&self) -> (r: bool)
        ensures
            r == !self.upstream_done(),
    {
        !self.done
    }

    /// Takes what one poll of the upstream reported, and says what to do next.
    pub fn poll_next(&mut self, ev: Upstream<T>) -> (r: ChunkStep<Vec<T>>)
        requires
            old(self).wf(),
        ensures
            final(self).wf(),
            final(self).capacity() == old(self).capacity(),
            (final(self).buffered(), final(self).upstream_done(), step_view(r))
                == chunk_model(old(self).buffered(), old(self).upstream_done(), old(self).capacity(), ev),
    {
        if self.done {
            return ChunkStep::Exhausted;
        }
        match ev {
            Upstream::Item(x) => {
                self.items.push(x);
                if self.items.len() >= self.cap {
                    ChunkStep::Batch(self.take())
                } else {
                    ChunkStep::PollAgain
                }
            },
            Upstream::Pending => ChunkStep::Pending,
            Upstream::Exhausted => {
                self.done = true;
                if self.items.len() == 0 {
                    ChunkStep::Exhausted
                } else {
                    ChunkStep::Batch(self.take())
                }
            },
        }
    }

    /// Bounds on the number of batches still to come, from the upstream's own
    /// bounds on its items: one more for a non-empty buffer. An exhausted
    /// upstream counts as `(0, Some(0))` whatever is handed in.
    pub fn size_hint(&self, upstream: (usize, Option<usize>)) -> (r: (usize, Option<usize>))
        ensures
            r == hint_plus(
                if self.upstream_done() { (0usize, Some(0usize)) } else { upstream },
                if self.buffered().len() == 0 { 0 } else { 1 },
            ),
    {
        let chunk_len: usize = if self.items.len() == 0 { 0 } else { 1 };
        let (lower, upper) = if self.done { (0usize, Some(0usize)) } else { upstream };
        let lower = lower.saturating_add(chunk_len);
        let upper = match upper {
            Some(x) => x.checked_add(chunk_len),
            None => None,
        };
        (lower, upper)
    }

    /// Whether no batch will ever be produced again.
    pub fn is_terminated(&self) -> (r: bool)
        ensures
            r == (self.upstream_done() && self.buffered().len() == 0),
    {
        self.done && self.items.len() == 0
    }
}

} // verus!
