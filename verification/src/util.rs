//! Random reordering and disposable names, over a thread-local generator.
//!
//! The generator itself and the two draws made from it are the work of an
//! outside crate; everything around them is verified.

use rand::Rng;
use vstd::prelude::*;

verus! {

/// A character of the disposable-name alphabet.
pub open spec fn is_alnum_char(c: char) -> bool {
    ('a' <= c && c <= 'z') || ('A' <= c && c <= 'Z') || ('0' <= c && c <= '9')
}

#[verifier::external_type_specification]
#[verifier::external_body]
pub struct ExThreadRng(rand::rngs::ThreadRng);

/// Relies on rand::thread_rng: a handle to the thread-local generator.
#[verifier::external_body]
fn fresh_rng() -> rand::rngs::ThreadRng {
    rand::thread_rng()
}

/// Relies on Rng::gen_range: a value drawn from the given range, here
/// `0..=max`, so the result never exceeds `max`.
#[verifier::external_body]
fn rng_index_upto(rng: &mut rand::rngs::ThreadRng, max: usize) -> (r: usize)
    ensures
        r <= max,
{
    rng.gen_range(0..=max)
}

/// Relies on Alphanumeric::sample_string: a string of exactly `len`
/// characters, each drawn from `A-Z`, `a-z`, `0-9`.
#[verifier::external_body]
fn rng_alphanumeric(rng: &mut rand::rngs::ThreadRng, len: usize) -> (r: String)
    ensures
        r@.len() == len,
        forall|i: int| 0 <= i < r@.len() ==> is_alnum_char(#[trigger] r@[i]),
{
    rand::distributions::DistString::sample_string(
        &rand::distributions::Alphanumeric,
        rng,
        len,
    )
}

/// Relies on slice::swap: exchanges the elements at the two indices.
#[verifier::external_body]
fn swap_in_vec<T>(v: &mut Vec<T>, a: usize, b: usize)
    requires
        a < old(v)@.len(),
        b < old(v)@.len(),
    ensures
        final(v)@ == old(v)@.update(a as int, old(v)@[b as int]).update(
            b as int,
            old(v)@[a as int],
        ),
{
    v.swap(a, b);
}

/// Reorders the elements in place, uniformly over all orderings, by an
/// unbiased backwards swap pass.  The result holds exactly the elements it
/// started with.
pub fn shuffle_slice<T>(vec: &mut Vec<T>)
    ensures
        final(vec)@.len() == old(vec)@.len(),
        final(vec)@.to_multiset() == old(vec)@.to_multiset(),
{
    let mut rng = fresh_rng();
    let mut i: usize = vec.len();
    while i > 1
        invariant
            i <= vec@.len(),
            vec@.len() == old(vec)@.len(),
            vec@.to_multiset() == old(vec)@.to_multiset(),
        decreases i,
    {
        let idx = rng_index_upto(&mut rng, i - 1);
        let ghost before = vec@;
        swap_in_vec(vec, idx, i - 1);
        proof {
            lemma_swap_preserves_multiset(before, idx as int, (i - 1) as int);
        }
        i = i - 1;
    }
}

/// Exchanging two positions of a sequence leaves its multiset unchanged.
proof fn lemma_swap_preserves_multiset<T>(s: Seq<T>, a: int, b: int)
    requires
        0 <= a < s.len(),
        0 <= b < s.len(),
    ensures
        s.update(a, s[b]).update(b, s[a]).to_multiset() == s.to_multiset(),
{
    broadcast use vstd::seq_lib::group_to_multiset_ensures;
    broadcast use vstd::seq_lib::to_multiset_update;
    broadcast use vstd::multiset::group_multiset_axioms;

    if a == b {
        assert(s.update(a, s[b]).update(b, s[a]) =~= s);
    } else {
        let s1 = s.update(a, s[b]);
        assert(s1[b] == s[b]);
        assert(s1.to_multiset() == s.to_multiset().insert(s[b]).remove(s[a]));
        assert(s1.update(b, s[a]).to_multiset() == s1.to_multiset().insert(s[a]).remove(s1[b]));
        assert(s.to_multiset().count(s[a]) > 0);
        assert(s.to_multiset().insert(s[b]).remove(s[a]).insert(s[a]).remove(s[b]) =~= s.to_multiset());
    }
}

/// A disposable name: `len` random characters of the alphanumeric alphabet.
pub fn gen_temp_name(len: usize) -> (r: String)
    ensures
        r@.len() == len,
        forall|i: int| 0 <= i < r@.len() ==> is_alnum_char(#[trigger] r@[i]),
{
    let mut rng = fresh_rng();
    rng_alphanumeric(&mut rng, len)
}

} // verus!
