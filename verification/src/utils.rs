//! The clock, fresh identifiers, and shuffling.
//!
//! A shuffle walks the list from its end and swaps each place with one
//! drawn at random from the places up to it. Whatever is drawn, the list
//! keeps its items. With a seed the draws come from a generator that the
//! seed alone sets up.

use vstd::prelude::*;
use rand::Rng;
use rand::SeedableRng;
use std::collections::hash_map::DefaultHasher;
use std::hash::Hash;
use std::hash::Hasher;
use vstd::std_specs::hash::DefaultHasherAdditionalSpecFns;
use crate::base64::push_char;

verus! {

#[verifier::external_type_specification]
#[verifier::external_body]
pub struct ExChaCha8Rng(rand_chacha::ChaCha8Rng);

/// The time now, in milliseconds since the epoch (`SystemTime::now`).
/// Nothing is claimed of it.
#[verifier::external_body]
pub fn now() -> i64 {
    std::time::SystemTime::now().duration_since(std::time::UNIX_EPOCH).map(|d| d.as_millis() as i64).unwrap_or_default()
}

/// A fresh identifier (`Uuid::new_v4`, as text). Nothing is claimed of it.
#[verifier::external_body]
pub fn generate_id() -> String {
    uuid::Uuid::new_v4().to_string()
}

/// What a hasher is fed when a text is hashed into it.
pub uninterp spec fn fed_by(seed: Seq<char>) -> Seq<Seq<u8>>;

/// `<str as Hash>::hash` into the standard library's default hasher: the
/// hasher is fed what the text alone determines.
#[verifier::external_body]
fn feed(hasher: &mut DefaultHasher, seed: &str)
    ensures
        final(hasher)@ == old(hasher)@ + fed_by(seed@),
{
    seed.hash(hasher)
}

/// The hash of a seed text: what the default hasher comes to when the
/// text alone is hashed into it.
pub open spec fn seed_hash(seed: Seq<char>) -> u64 {
    DefaultHasher::spec_finish(fed_by(seed))
}

/// The hash of a seed text by the standard library's default hasher.
fn hash_seed(seed: &str) -> (r: u64)
    ensures
        r == seed_hash(seed@),
{
    let mut hasher = DefaultHasher::new();
    feed(&mut hasher, seed);
    proof {
        assert(Seq::<Seq<u8>>::empty() + fed_by(seed@) =~= fed_by(seed@));
    }
    hasher.finish()
}

/// The generator that `ChaCha8Rng::from_seed` sets up from the bytes of a seed.
pub uninterp spec fn generator_of(seed: Seq<u8>) -> rand_chacha::ChaCha8Rng;

/// `ChaCha8Rng::from_seed`: the generator is set up from the seed alone.
/// Nothing is claimed of what it will hand out.
#[verifier::external_body]
fn rng_from_seed(seed: [u8; 32]) -> (r: rand_chacha::ChaCha8Rng)
    ensures
        r == generator_of(seed@),
{
    rand_chacha::ChaCha8Rng::from_seed(seed)
}

/// `Rng::gen_range` on a seeded generator, over `0..=bound`.
#[verifier::external_body]
fn seeded_pick(rng: &mut rand_chacha::ChaCha8Rng, bound: usize) -> (r: usize)
    ensures
        r <= bound,
{
    rng.gen_range(0..=bound)
}

/// `Rng::gen_range` on the thread's generator, over `0..=bound`.
#[verifier::external_body]
fn random_pick(bound: usize) -> (r: usize)
    ensures
        r <= bound,
{
    rand::thread_rng().gen_range(0..=bound)
}

/// `slice::swap` on a list.
#[verifier::external_body]
pub(crate) fn swap_items<T>(v: &mut Vec<T>, i: usize, j: usize)
    requires
        i < old(v).len(),
        j < old(v).len(),
    ensures
        final(v)@ == old(v)@.update(i as int, old(v)@[j as int]).update(j as int, old(v)@[i as int]),
{
    v.swap(i, j)
}

/// The byte `i` of a number, the lowest first.
pub open spec fn byte_of(hash: u64, i: int) -> u8 {
    ((hash >> ((8 * i) as u64)) & 0xFF) as u8
}

/// The 32 bytes of a seed: the eight bytes of the hash, lowest first, four times over.
pub open spec fn seed_bytes(hash: u64) -> Seq<u8> {
    Seq::new(32, |i: int| byte_of(hash, i % 8))
}

/// The 32 bytes of a seed as an array. See `seed_bytes`.
pub fn seed_array(hash: u64) -> (r: [u8; 32])
    ensures
        forall|i: int| 0 <= i < 32 ==> #[trigger] r[i] == byte_of(hash, i % 8),
        r@ == seed_bytes(hash),
{
    let mut seed = [0u8; 32];
    let mut i: usize = 0;
    while i < 32
        invariant
            0 <= i <= 32,
            forall|j: int| 0 <= j < i ==> #[trigger] seed[j] == byte_of(hash, j % 8),
        decreases 32 - i,
    {
        let shift: u64 = 8 * ((i % 8) as u64);
        let byte = #[verifier::truncate] (((hash >> shift) & 0xFF) as u8);
        seed[i] = byte;
        i = i + 1;
    }
    proof {
        assert(seed@ =~= seed_bytes(hash));
    }
    seed
}

/// The generator for a seed text: the text is hashed, and the generator
/// is set up from the seed bytes of the hash. The seed text alone
/// determines it.
pub fn seeded_rng(seed: &str) -> (r: rand_chacha::ChaCha8Rng)
    ensures
        r == generator_of(seed_bytes(seed_hash(seed@))),
{
    rng_from_seed(seed_array(hash_seed(seed)))
}

/// The decimal digit for a number below ten.
pub open spec fn digit(d: nat) -> char {
    if d == 0 {
        '0'
    } else if d == 1 {
        '1'
    } else if d == 2 {
        '2'
    } else if d == 3 {
        '3'
    } else if d == 4 {
        '4'
    } else if d == 5 {
        '5'
    } else if d == 6 {
        '6'
    } else if d == 7 {
        '7'
    } else if d == 8 {
        '8'
    } else {
        '9'
    }
}

/// A number in decimal, without leading zeros.
pub open spec fn decimal(n: nat) -> Seq<char>
    decreases n,
{
    if n < 10 {
        seq![digit(n)]
    } else {
        decimal(n / 10).push(digit(n % 10))
    }
}

fn digit_char(d: usize) -> (c: char)
    requires
        d < 10,
    ensures
        c == digit(d as nat),
{
    if d == 0 {
        '0'
    } else if d == 1 {
        '1'
    } else if d == 2 {
        '2'
    } else if d == 3 {
        '3'
    } else if d == 4 {
        '4'
    } else if d == 5 {
        '5'
    } else if d == 6 {
        '6'
    } else if d == 7 {
        '7'
    } else if d == 8 {
        '8'
    } else {
        '9'
    }
}

/// Writes a number in decimal at the end of a text.
pub fn push_decimal(text: &mut String, n: usize)
    ensures
        final(text)@ == old(text)@ + decimal(n as nat),
    decreases n,
{
    if n >= 10 {
        push_decimal(text, n / 10);
    }
    push_char(text, digit_char(n % 10));
    proof {
        assert(final(text)@ =~= old(text)@ + decimal(n as nat));
    }
}

/// Swapping two places of a list keeps its items.
pub proof fn lemma_swap_keeps_items<T>(s: Seq<T>, i: int, j: int)
    requires
        0 <= i < s.len(),
        0 <= j < s.len(),
    ensures
        s.update(i, s[j]).update(j, s[i]).to_multiset() == s.to_multiset(),
{
    let t = s.update(i, s[j]).update(j, s[i]);
    if i == j {
        assert(t =~= s);
    } else {
        vstd::seq_lib::to_multiset_update(s, i, s[j]);
        vstd::seq_lib::to_multiset_update(s.update(i, s[j]), j, s[i]);
        vstd::seq_lib::to_multiset_contains(s, s[i]);
        vstd::seq_lib::to_multiset_contains(s, s[j]);
        assert(s.update(i, s[j])[j] == s[j]);
        assert(t.to_multiset() =~= s.to_multiset());
    }
}

/// `p` names each place of a list of `n` items once.
pub open spec fn is_rearrangement(p: Seq<int>, n: nat) -> bool {
    &&& p.len() == n
    &&& p.no_duplicates()
    &&& forall|i: int| 0 <= i < n ==> 0 <= #[trigger] p[i] < n
}

/// `a` holds the items of `b`, each from a place of its own.
pub open spec fn rearranged<T>(a: Seq<T>, b: Seq<T>) -> bool {
    exists|p: Seq<int>| is_rearrangement(p, b.len()) && a.len() == b.len() && forall|i: int|
        0 <= i < a.len() ==> a[i] == b[#[trigger] p[i]]
}

/// The list with the items at two places exchanged.
pub open spec fn swapped<T>(s: Seq<T>, i: int, j: int) -> Seq<T> {
    s.update(i, s[j]).update(j, s[i])
}

/// Picks for a list of `len` items: one for each place, none beyond its place.
pub open spec fn picks_fit(picks: Seq<int>, len: nat) -> bool {
    &&& picks.len() == len
    &&& forall|i: int| 0 <= i < len ==> 0 <= #[trigger] picks[i] <= i
}

/// The list after the walk of a shuffle from its end down to the place
/// `down_to`: at each place, the last one first, the item is exchanged
/// with the item at the place picked for it.
pub open spec fn walked<T>(s: Seq<T>, picks: Seq<int>, down_to: int) -> Seq<T>
    decreases s.len() - down_to,
{
    if down_to >= s.len() {
        s
    } else {
        swapped(walked(s, picks, down_to + 1), down_to, picks[down_to])
    }
}

/// The list after the whole walk, which ends at the second place.
pub open spec fn shuffled<T>(s: Seq<T>, picks: Seq<int>) -> Seq<T> {
    walked(s, picks, 1)
}

/// `a` is what the walk makes of `b` under some picks that fit.
pub open spec fn is_shuffle_of<T>(a: Seq<T>, b: Seq<T>) -> bool {
    exists|picks: Seq<int>| #[trigger] picks_fit(picks, b.len()) && a == shuffled(b, picks)
}

/// The picks as the numbers that they are.
pub open spec fn picks_view(picks: Seq<usize>) -> Seq<int> {
    picks.map_values(|p: usize| p as int)
}

/// Makes the picks for the walk over a list of `len` items: for each place
/// from the last down to the second, a place up to it. With a seed they
/// come from the generator that the seed sets up, without one from the
/// thread's own. Whatever the generator hands out, the picks fit.
pub fn draw_picks(len: usize, seed: Option<&str>) -> (picks: Vec<usize>)
    ensures
        picks_fit(picks_view(picks@), len as nat),
{
    let mut picks: Vec<usize> = Vec::new();
    let mut k: usize = 0;
    while k < len
        invariant
            0 <= k <= len,
            picks.len() == k,
            forall|j: int| 0 <= j < k ==> picks@[j] == 0,
        decreases len - k,
    {
        picks.push(0);
        k = k + 1;
    }
    if len > 1 {
        let mut rng: Option<rand_chacha::ChaCha8Rng> = match seed {
            Some(seed_str) => Some(seeded_rng(seed_str)),
            None => None,
        };
        let mut i: usize = len - 1;
        while i >= 1
            invariant
                0 <= i < len,
                picks.len() == len,
                forall|j: int| 0 <= j < len ==> picks@[j] <= j,
            decreases i,
        {
            let j = match &mut rng {
                Some(r) => seeded_pick(r, i),
                None => random_pick(i),
            };
            picks.set(i, j);
            i = i - 1;
        }
    }
    proof {
        assert forall|j: int| 0 <= j < len implies 0 <= #[trigger] picks_view(picks@)[j] <= j by {
            assert(picks_view(picks@)[j] == picks@[j]);
        }
    }
    picks
}

/// Walks the list as a shuffle does, with the picks given: from its end
/// down to the second place, the item at each place is exchanged with the
/// item at the place picked for it. The list keeps its items, each in a
/// place of its own.
pub fn walk_with<T>(vec: &mut Vec<T>, picks: &Vec<usize>)
    requires
        picks_fit(picks_view(picks@), old(vec).len() as nat),
    ensures
        final(vec)@ == shuffled(old(vec)@, picks_view(picks@)),
        final(vec)@.to_multiset() == old(vec)@.to_multiset(),
        final(vec).len() == old(vec).len(),
        rearranged(final(vec)@, old(vec)@),
{
    let len = vec.len();
    let ghost all = picks_view(picks@);
    let ghost mut p: Seq<int> = Seq::new(len as nat, |i: int| i);
    if len <= 1 {
        proof {
            assert(is_rearrangement(p, len as nat));
        }
        return ;
    }
    let mut i: usize = len - 1;
    while i >= 1
        invariant
            0 <= i < len,
            vec.len() == len,
            old(vec).len() == len,
            all == picks_view(picks@),
            picks_fit(all, len as nat),
            vec@.to_multiset() == old(vec)@.to_multiset(),
            is_rearrangement(p, len as nat),
            forall|k: int| 0 <= k < len ==> vec@[k] == old(vec)@[#[trigger] p[k]],
            vec@ == walked(old(vec)@, all, i + 1),
        decreases i,
    {
        let j = picks[i];
        proof {
            assert(all[i as int] == j);
            lemma_swap_keeps_items(vec@, i as int, j as int);
        }
        swap_items(vec, i, j);
        proof {
            assert(vec@ == walked(old(vec)@, all, i as int));
            let q = p.update(i as int, p[j as int]).update(j as int, p[i as int]);
            assert(q.no_duplicates()) by {
                assert forall|a: int, b: int| 0 <= a < q.len() && 0 <= b < q.len() && a != b implies q[a]
                    != q[b] by {
                    let sa = if a == i {
                        j as int
                    } else if a == j {
                        i as int
                    } else {
                        a
                    };
                    let sb = if b == i {
                        j as int
                    } else if b == j {
                        i as int
                    } else {
                        b
                    };
                    assert(q[a] == p[sa] && q[b] == p[sb] && sa != sb);
                }
            }
            p = q;
        }
        i = i - 1;
    }
}

/// Shuffles the list in place: the picks are drawn, and the list is walked
/// with them. See `draw_picks` and `walk_with`.
pub fn shuffle_vec<T>(vec: &mut Vec<T>, seed: Option<&str>)
    ensures
        is_shuffle_of(final(vec)@, old(vec)@),
        final(vec)@.to_multiset() == old(vec)@.to_multiset(),
        final(vec).len() == old(vec).len(),
        rearranged(final(vec)@, old(vec)@),
{
    let picks = draw_picks(vec.len(), seed);
    walk_with(vec, &picks);
    proof {
        let all = picks_view(picks@);
        assert(picks_fit(all, old(vec)@.len()) && final(vec)@ == shuffled(old(vec)@, all));
    }
}

} // verus!
