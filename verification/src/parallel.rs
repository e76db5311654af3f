//! Work on several decks at once, and on a long list chunk by chunk.

use vstd::prelude::*;
use vstd::slice::slice_subrange;
use vstd::string::StringExecFns;
use crate::utils::{rearranged, shuffle_vec};

verus! {

/// How many items leave a deck of `len` items when `count` are asked for.
pub open spec fn drawn_count(len: nat, count: nat) -> nat {
    if count < len {
        count
    } else {
        len
    }
}

/// What stays of a deck after a draw: all but its last items.
pub open spec fn deck_after<T>(deck: Seq<T>, count: nat) -> Seq<T> {
    deck.take(deck.len() - drawn_count(deck.len(), count))
}

/// What a draw hands out: the last items of the deck, the very last first.
pub open spec fn deck_drawn<T>(deck: Seq<T>, count: nat) -> Seq<T> {
    deck.skip(deck.len() - drawn_count(deck.len(), count)).reverse()
}

/// Draws from each deck as many items as `counts` asks of it, or all it
/// has where it has fewer. The items come off the end of the deck, the
/// last one first.
pub fn batch_draw<T>(decks: &mut Vec<Vec<T>>, counts: &[usize]) -> (results: Vec<Vec<T>>)
    requires
        old(decks).len() == counts.len(),
    ensures
        final(decks).len() == old(decks).len(),
        results.len() == old(decks).len(),
        forall|i: int|
            0 <= i < old(decks).len() ==> #[trigger] final(decks)[i]@ == deck_after(
                old(decks)[i]@,
                counts[i] as nat,
            ),
        forall|i: int|
            0 <= i < old(decks).len() ==> #[trigger] results[i]@ == deck_drawn(old(decks)[i]@, counts[i] as nat),
{
    let ghost before = decks@;
    let mut results: Vec<Vec<T>> = Vec::new();
    let n = decks.len();
    let mut i: usize = 0;
    while i < n
        invariant
            0 <= i <= n,
            n == counts.len(),
            decks.len() == n,
            before.len() == n,
            results.len() == i,
            forall|j: int| 0 <= j < i ==> #[trigger] decks[j]@ == deck_after(before[j]@, counts[j] as nat),
            forall|j: int| i <= j < n ==> #[trigger] decks[j] == before[j],
            forall|j: int| 0 <= j < i ==> #[trigger] results[j]@ == deck_drawn(before[j]@, counts[j] as nat),
        decreases n - i,
    {
        let count = counts[i];
        let available = decks[i].len();
        let to_draw = if count < available {
            count
        } else {
            available
        };
        let ghost deck0 = decks[i as int]@;
        let ghost decks0 = decks@;
        let mut deck: Vec<T> = Vec::new();
        std::mem::swap(&mut deck, &mut decks[i]);
        let mut drawn: Vec<T> = Vec::new();
        let mut k: usize = 0;
        while k < to_draw
            invariant
                0 <= k <= to_draw,
                to_draw <= deck0.len(),
                deck@ == deck0.take(deck0.len() - k),
                drawn@ == deck0.skip(deck0.len() - k).reverse(),
            decreases to_draw - k,
        {
            let item = deck.pop().unwrap();
            drawn.push(item);
            proof {
                let m = deck0.len() - k;
                assert(deck@ =~= deck0.take(m - 1));
                assert(deck0.skip(m - 1).reverse() =~= deck0.skip(m).reverse().push(deck0[m - 1]));
            }
            k = k + 1;
        }
        std::mem::swap(&mut deck, &mut decks[i]);
        results.push(drawn);
        i = i + 1;
    }
    results
}

/// A list that is worked on in chunks of a fixed size.
pub struct ChunkedIterator<T> {
    data: Vec<T>,
    chunk_size: usize,
}

/// Where the chunk `i` of a list of `len` items starts, the chunks being
/// `size` long.
pub open spec fn chunk_start(size: int, i: int) -> int {
    i * size
}

/// Where the chunk `i` ends: a full chunk on, or at the end of the list.
pub open spec fn chunk_end(len: int, size: int, i: int) -> int {
    if (i + 1) * size < len {
        (i + 1) * size
    } else {
        len
    }
}

/// The number of chunks: the last one may be shorter, none is empty.
pub open spec fn chunk_count(len: int, size: int) -> int {
    if size > 0 {
        (len + size - 1) / size
    } else {
        0
    }
}

/// `out` is what `processor` returned when it was handed the items `chunk`.
pub open spec fn processed<T, R, F: Fn(&[T]) -> R>(processor: F, chunk: Seq<T>, out: R) -> bool {
    exists|c: &[T]| c@ == chunk && call_ensures(processor, (c,), out)
}

impl<T> ChunkedIterator<T> {
    /// The items to work on.
    pub closed spec fn items(&self) -> Seq<T> {
        self.data@
    }

    /// The size of a chunk.
    pub closed spec fn size(&self) -> int {
        self.chunk_size as int
    }

    /// The items of the chunk `i`.
    pub open spec fn chunk(&self, i: int) -> Seq<T> {
        self.items().subrange(
            chunk_start(self.size(), i),
            chunk_end(self.items().len() as int, self.size(), i),
        )
    }

    pub fn new(data: Vec<T>, chunk_size: usize) -> (r: Self)
        ensures
            r.items() == data@,
            r.size() == chunk_size,
    {
        Self { data, chunk_size }
    }

    /// Hands each chunk in turn to `processor` and collects what it returns.
    /// The size of a chunk must not be 0.
    pub fn process<F, R>(&mut self, processor: F) -> (r: Vec<R>) where F: Fn(&[T]) -> R
        requires
            old(self).size() > 0,
            forall|c: &[T]| #[trigger] call_requires(processor, (c,)),
        ensures
            *final(self) == *old(self),
            r.len() == chunk_count(old(self).items().len() as int, old(self).size()),
            forall|i: int| 0 <= i < r.len() ==> processed(processor, old(self).chunk(i), #[trigger] r[i]),
    {
        let mut results: Vec<R> = Vec::new();
        let len = self.data.len();
        let size = self.chunk_size;
        let mut start: usize = 0;
        proof {
            assert(0 * size == 0) by (nonlinear_arith);
        }
        while start < len
            invariant
                size > 0,
                size == self.chunk_size,
                len == self.data.len(),
                *self == *old(self),
                0 <= start <= len,
                start == results.len() * size,
                forall|c: &[T]| #[trigger] call_requires(processor, (c,)),
                forall|i: int| 0 <= i < results.len() ==> processed(processor, self.chunk(i), #[trigger] results[i]),
            decreases len - start,
        {
            let end = if len - start < size {
                len
            } else {
                start + size
            };
            let chunk = slice_subrange(self.data.as_slice(), start, end);
            let out = processor(chunk);
            let ghost done = results@;
            let ghost index = results.len() as int;
            results.push(out);
            proof {
                assert((index + 1) * size == start + size) by (nonlinear_arith)
                    requires
                        start == index * size,
                ;
                assert(chunk@ == self.chunk(index));
                assert forall|i: int| 0 <= i < results.len() implies processed(
                    processor,
                    self.chunk(i),
                    #[trigger] results[i],
                ) by {
                    if i < index {
                        assert(results[i] == done[i]);
                    } else {
                        assert(chunk@ == self.chunk(i) && call_ensures(processor, (chunk,), results[i]));
                    }
                }
                assert(results.len() * size == start + size) by (nonlinear_arith)
                    requires
                        start == index * size,
                        results.len() == index + 1,
                ;
            }
            if len - start < size {
                proof {
                    lemma_chunk_count(len as int, size as int, index);
                }
                return results;
            }
            start = end;
        }
        proof {
            lemma_chunk_count_exact(len as int, size as int, results.len() as int);
        }
        results
    }
}

/// The seed of the deck `index` in a batch seeded with `prefix`: the
/// prefix, `-`, and the index.
pub fn deck_seed(prefix: &str, index: usize) -> (r: String)
    ensures
        exists|n: String| vstd::string::to_string_from_display_ensures::<usize>(&index, n) && r@ == prefix@ + "-"@ + n@,
{
    let n = index.to_string();
    let mut seed = prefix.to_owned();
    seed.append("-");
    seed.append(n.as_str());
    seed
}

/// Shuffles each deck of a batch: with a seed prefix each by a seed of its
/// own, always the same way; without one at random. Each deck keeps its
/// items.
pub fn batch_shuffle<T>(decks: &mut Vec<Vec<T>>, seed_prefix: Option<&str>)
    ensures
        final(decks).len() == old(decks).len(),
        forall|i: int| 0 <= i < old(decks).len() ==> rearranged(#[trigger] final(decks)[i]@, old(decks)[i]@),
{
    let ghost before = decks@;
    let n = decks.len();
    let mut i: usize = 0;
    while i < n
        invariant
            0 <= i <= n,
            decks.len() == n,
            before.len() == n,
            forall|j: int| 0 <= j < i ==> rearranged(#[trigger] decks[j]@, before[j]@),
            forall|j: int| i <= j < n ==> #[trigger] decks[j] == before[j],
        decreases n - i,
    {
        let mut deck: Vec<T> = Vec::new();
        std::mem::swap(&mut deck, &mut decks[i]);
        match seed_prefix {
            Some(prefix) => {
                let seed = deck_seed(prefix, i);
                shuffle_vec(&mut deck, Some(seed.as_str()));
            },
            None => {
                shuffle_vec(&mut deck, None);
            },
        }
        std::mem::swap(&mut deck, &mut decks[i]);
        i = i + 1;
    }
}

/// Applies `f` to each item and collects what it returns, in order.
pub fn parallel_map<T, F, U>(items: &[T], f: F) -> (r: Vec<U>) where F: Fn(&T) -> U
    requires
        forall|i: int| 0 <= i < items@.len() ==> call_requires(f, (&#[trigger] items@[i],)),
    ensures
        r.len() == items@.len(),
        forall|i: int| 0 <= i < items@.len() ==> call_ensures(f, (&items@[i],), #[trigger] r[i]),
{
    let mut out: Vec<U> = Vec::new();
    let mut i: usize = 0;
    while i < items.len()
        invariant
            0 <= i <= items@.len(),
            out.len() == i,
            forall|k: int| 0 <= k < items@.len() ==> call_requires(f, (&#[trigger] items@[k],)),
            forall|k: int| 0 <= k < i ==> call_ensures(f, (&items@[k],), #[trigger] out[k]),
        decreases items@.len() - i,
    {
        let u = f(&items[i]);
        out.push(u);
        i = i + 1;
    }
    out
}

/// The item `k` of `kept` is a copy of the item at the place `at[k]`, of
/// which `predicate` said yes.
pub open spec fn keeps<T: Clone, F: Fn(&T) -> bool>(items: Seq<T>, kept: Seq<T>, predicate: F, at: Seq<int>, k: int) -> bool {
    &&& 0 <= at[k] < items.len()
    &&& call_ensures(predicate, (&items[at[k]],), true)
    &&& cloned(items[at[k]], kept[k])
}

/// Of the item `i`, if it is not among the places `at`, `predicate` said no.
pub open spec fn drops<T: Clone, F: Fn(&T) -> bool>(items: Seq<T>, predicate: F, at: Seq<int>, i: int) -> bool {
    !at.contains(i) ==> call_ensures(predicate, (&items[i],), false)
}

/// `kept` are copies of those of `items` of which `predicate` said yes,
/// in their order: the places `at` are the places of those items.
pub open spec fn filtered<T: Clone, F: Fn(&T) -> bool>(items: Seq<T>, kept: Seq<T>, predicate: F, at: Seq<int>) -> bool {
    &&& at.len() == kept.len()
    &&& forall|k: int, l: int| 0 <= k < l < at.len() ==> at[k] < at[l]
    &&& forall|k: int| 0 <= k < at.len() ==> #[trigger] keeps(items, kept, predicate, at, k)
    &&& forall|i: int| 0 <= i < items.len() ==> #[trigger] drops(items, predicate, at, i)
}

/// Copies of the items of which `predicate` says yes, in their order.
pub fn parallel_filter<T: Clone, F>(items: &[T], predicate: F) -> (r: Vec<T>) where F: Fn(&T) -> bool
    requires
        forall|i: int| 0 <= i < items@.len() ==> call_requires(predicate, (&#[trigger] items@[i],)),
    ensures
        exists|at: Seq<int>| filtered(items@, r@, predicate, at),
{
    let mut out: Vec<T> = Vec::new();
    let ghost mut at: Seq<int> = Seq::empty();
    let mut i: usize = 0;
    while i < items.len()
        invariant
            0 <= i <= items@.len(),
            forall|k: int| 0 <= k < items@.len() ==> call_requires(predicate, (&#[trigger] items@[k],)),
            at.len() == out.len(),
            forall|k: int| 0 <= k < at.len() ==> #[trigger] at[k] < i,
            forall|k: int, l: int| 0 <= k < l < at.len() ==> at[k] < at[l],
            forall|k: int| 0 <= k < at.len() ==> #[trigger] keeps(items@, out@, predicate, at, k),
            forall|j: int| 0 <= j < i ==> #[trigger] drops(items@, predicate, at, j),
        decreases items@.len() - i,
    {
        let ghost before = at;
        let ghost held = out@;
        if predicate(&items[i]) {
            let copy = items[i].clone();
            proof {
                assert(cloned(items@[i as int], copy));
            }
            out.push(copy);
            proof {
                at = at.push(i as int);
                assert forall|k: int| 0 <= k < at.len() implies #[trigger] keeps(items@, out@, predicate, at, k) by {
                    if k < before.len() {
                        assert(keeps(items@, held, predicate, before, k));
                        assert(out@[k] == held[k]);
                        assert(at[k] == before[k]);
                    } else {
                        assert(at[k] == i);
                        assert(out@[k] == copy);
                    }
                }
                assert forall|j: int| 0 <= j < i + 1 implies #[trigger] drops(items@, predicate, at, j) by {
                    if j == i {
                        assert(at[before.len() as int] == i);
                    } else {
                        assert(drops(items@, predicate, before, j));
                        if before.contains(j) {
                            let k = choose|k: int| 0 <= k < before.len() && before[k] == j;
                            assert(at[k] == j);
                        }
                    }
                }
            }
        } else {
            proof {
                assert forall|j: int| 0 <= j < i + 1 implies #[trigger] drops(items@, predicate, at, j) by {
                    if j < i {
                        assert(drops(items@, predicate, at, j));
                    }
                }
            }
        }
        i = i + 1;
    }
    proof {
        assert(filtered(items@, out@, predicate, at));
    }
    out
}

/// A list that ends inside the chunk `i` has `i + 1` chunks.
proof fn lemma_chunk_count(len: int, size: int, i: int)
    requires
        size > 0,
        i >= 0,
        i * size < len,
        len - i * size < size,
    ensures
        chunk_count(len, size) == i + 1,
{
    assert((len + size - 1) / size == i + 1) by (nonlinear_arith)
        requires
            size > 0,
            i >= 0,
            i * size < len,
            len - i * size < size,
    ;
}

/// A list of `i` full chunks has `i` chunks.
proof fn lemma_chunk_count_exact(len: int, size: int, i: int)
    requires
        size > 0,
        i >= 0,
        len == i * size,
    ensures
        chunk_count(len, size) == i,
{
    assert((len + size - 1) / size == i) by (nonlinear_arith)
        requires
            size > 0,
            i >= 0,
            len == i * size,
    ;
}

} // verus!
