//! Cheap embeddings: words and pairs of words counted into a few buckets.
//!
//! The bucket of a word is taken from its SHA-256. A word counts a whole in two
//! buckets, a pair of neighbouring words a half. Counts are kept in halves, so
//! that they are whole numbers; scaling them to length one is left to the
//! caller.

use sha2::{Digest, Sha256};
use vstd::prelude::*;

use crate::text::{lowercase, split_words, to_lower, views, words};

verus! {

/// How many buckets an embedding usually has.
pub const HASH_DIM: usize = 256;

/// How many numbers an embedding of the model has.
pub const FASTEMBED_DIM: usize = 1024;

/// The SHA-256 of a text, which is 32 bytes.
pub uninterp spec fn sha256_of(text: Seq<char>) -> Seq<u8>;

/// Calls `sha2::Sha256::digest` on the bytes of a text, and claims that the
/// result depends on the text alone.
#[verifier::external_body]
fn sha256(text: &str) -> (r: [u8; 32])
    ensures
        r@ == sha256_of(text@),
{
    Sha256::digest(text.as_bytes()).into()
}

/// The number that four bytes write, the lowest first.
pub open spec fn le_u32(b: Seq<u8>, at: int) -> nat {
    (b[at] + 0x100 * b[at + 1] + 0x1_0000 * b[at + 2] + 0x100_0000 * b[at + 3]) as nat
}

/// The first eight bytes of the SHA-256 of a text.
pub fn sha256_hash(text: &str) -> (r: [u8; 8])
    ensures
        r@ == sha256_of(text@).take(8),
{
    let d = sha256(text);
    let r: [u8; 8] = [d[0], d[1], d[2], d[3], d[4], d[5], d[6], d[7]];
    proof {
        assert(r@ =~= sha256_of(text@).take(8));
    }
    r
}

/// The two buckets of a hash.
pub open spec fn buckets(hash: Seq<u8>, dim: nat) -> (int, int) {
    ((le_u32(hash, 0) % dim) as int, (le_u32(hash, 4) % dim) as int)
}

/// The two buckets of a hash.
pub fn hash_to_dims(hash: &[u8; 8], dim: usize) -> (r: (usize, usize))
    requires
        dim > 0,
    ensures
        (r.0 as int, r.1 as int) == buckets(hash@, dim as nat),
        r.0 < dim,
        r.1 < dim,
{
    let a: u64 = hash[0] as u64 + 0x100 * hash[1] as u64 + 0x1_0000 * hash[2] as u64 + 0x100_0000
        * hash[3] as u64;
    let b: u64 = hash[4] as u64 + 0x100 * hash[5] as u64 + 0x1_0000 * hash[6] as u64 + 0x100_0000
        * hash[7] as u64;
    ((a % dim as u64) as usize, (b % dim as u64) as usize)
}

/// What a text adds to a bucket: `weight` for each of its two buckets that it is.
pub open spec fn share(text: Seq<char>, dim: nat, d: int, weight: nat) -> nat {
    let (a, b) = buckets(sha256_of(text).take(8), dim);
    (if a == d {
        weight
    } else {
        0nat
    }) + (if b == d {
        weight
    } else {
        0nat
    })
}

/// What the first `n` words add to a bucket.
pub open spec fn word_count(tokens: Seq<Seq<char>>, dim: nat, d: int, n: nat) -> nat
    decreases n,
{
    if n == 0 {
        0
    } else {
        word_count(tokens, dim, d, (n - 1) as nat) + share(tokens[n - 1], dim, d, 2)
    }
}

/// What the first `n` pairs of neighbouring words add to a bucket.
pub open spec fn pair_count(tokens: Seq<Seq<char>>, dim: nat, d: int, n: nat) -> nat
    decreases n,
{
    if n == 0 {
        0
    } else {
        pair_count(tokens, dim, d, (n - 1) as nat) + share(
            tokens[n - 1] + " "@ + tokens[n as int],
            dim,
            d,
            1,
        )
    }
}

/// What a text adds to a bucket, in halves.
pub open spec fn bag_count(tokens: Seq<Seq<char>>, dim: nat, d: int) -> nat {
    word_count(tokens, dim, d, tokens.len()) + pair_count(
        tokens,
        dim,
        d,
        if tokens.len() == 0 {
            0
        } else {
            (tokens.len() - 1) as nat
        },
    )
}

/// Adds a text to its two buckets.
fn add_text(bag: &mut Vec<u128>, text: &str, weight: u128)
    requires
        old(bag)@.len() > 0,
        weight <= 2,
        forall|d: int|
            0 <= d < old(bag)@.len() ==> #[trigger] old(bag)@[d] <= 0x100_0000_0000_0000_0000,
    ensures
        final(bag)@.len() == old(bag)@.len(),
        forall|d: int|
            0 <= d < final(bag)@.len() ==> #[trigger] final(bag)@[d] == old(bag)@[d] + share(
                text@,
                old(bag)@.len(),
                d,
                weight as nat,
            ),
{
    let dim: usize = bag.len();
    let hash = sha256_hash(text);
    let (a, b) = hash_to_dims(&hash, dim);
    let at_a: u128 = bag[a];
    bag.set(a, at_a + weight);
    let at_b: u128 = bag[b];
    bag.set(b, at_b + weight);
}

proof fn lemma_word_count_bound(tokens: Seq<Seq<char>>, dim: nat, d: int, n: nat)
    ensures
        word_count(tokens, dim, d, n) <= 4 * n,
        pair_count(tokens, dim, d, n) <= 2 * n,
    decreases n,
{
    if n > 0 {
        lemma_word_count_bound(tokens, dim, d, (n - 1) as nat);
    }
}

/// The counts of the words and pairs of words, in halves.
pub fn bag_of(tokens: &Vec<String>, dim: usize) -> (r: Vec<u128>)
    requires
        dim > 0 || tokens@.len() == 0,
    ensures
        r@.len() == dim,
        forall|d: int|
            0 <= d < dim ==> #[trigger] r@[d] == bag_count(views(tokens@), dim as nat, d),
{
    let ghost all = views(tokens@);
    let mut bag: Vec<u128> = Vec::new();
    while bag.len() < dim
        invariant
            bag@.len() <= dim,
            forall|d: int| 0 <= d < bag@.len() ==> #[trigger] bag@[d] == 0,
        decreases dim - bag.len(),
    {
        bag.push(0);
    }
    let n: usize = tokens.len();
    let mut i: usize = 0;
    while i < n
        invariant
            n == tokens@.len(),
            all == views(tokens@),
            i <= n,
            bag@.len() == dim,
            dim > 0 || n == 0,
            forall|d: int|
                0 <= d < dim ==> #[trigger] bag@[d] == word_count(all, dim as nat, d, i as nat),
        decreases n - i,
    {
        proof {
            assert forall|d: int| 0 <= d < dim implies #[trigger] bag@[d]
                <= 0x100_0000_0000_0000_0000 by {
                lemma_word_count_bound(all, dim as nat, d, i as nat);
            }
        }
        add_text(&mut bag, tokens[i].as_str(), 2);
        proof {
            assert(all[i as int] == tokens@[i as int]@);
        }
        i += 1;
    }
    let mut k: usize = 0;
    while n > 0 && k < n - 1
        invariant
            n == tokens@.len(),
            all == views(tokens@),
            n == 0 ==> k == 0,
            n > 0 ==> k <= n - 1,
            bag@.len() == dim,
            dim > 0 || n == 0,
            forall|d: int|
                0 <= d < dim ==> #[trigger] bag@[d] == word_count(all, dim as nat, d, n as nat)
                    + pair_count(all, dim as nat, d, k as nat),
        decreases n - k,
    {
        proof {
            assert forall|d: int| 0 <= d < dim implies #[trigger] bag@[d]
                <= 0x100_0000_0000_0000_0000 by {
                lemma_word_count_bound(all, dim as nat, d, n as nat);
                lemma_word_count_bound(all, dim as nat, d, k as nat);
            }
        }
        let mut pair = tokens[k].clone();
        pair.append(" ");
        pair.append(tokens[k + 1].as_str());
        proof {
            assert(all[k as int] == tokens@[k as int]@);
            assert(all[k + 1] == tokens@[k + 1]@);
        }
        add_text(&mut bag, pair.as_str(), 1);
        k += 1;
    }
    bag
}

/// The embedding of a text: the counts of its words and pairs of words, in
/// halves. Case does not matter. Where there are words, there is room to count them.
pub fn hash_bag(text: &str, dim: usize) -> (r: Vec<u128>)
    requires
        dim > 0 || words(lowercase(text@)).len() == 0,
    ensures
        r@.len() == dim,
        forall|d: int|
            0 <= d < dim ==> #[trigger] r@[d] == bag_count(
                words(lowercase(text@)),
                dim as nat,
                d,
            ),
{
    let lower = to_lower(text);
    let tokens = split_words(lower.as_str());
    bag_of(&tokens, dim)
}

/// [`hash_bag`], or nothing where there are words and no room to count them.
pub fn try_hash_bag(text: &str, dim: usize) -> (r: Option<Vec<u128>>)
    ensures
        match r {
            Some(bag) => {
                &&& dim > 0 || words(lowercase(text@)).len() == 0
                &&& bag@.len() == dim
                &&& forall|d: int|
                    0 <= d < dim ==> #[trigger] bag@[d] == bag_count(
                        words(lowercase(text@)),
                        dim as nat,
                        d,
                    )
            },
            None => dim == 0 && words(lowercase(text@)).len() > 0,
        },
{
    if dim == 0 {
        let lower = to_lower(text);
        let tokens = split_words(lower.as_str());
        proof {
            assert(views(tokens@).len() == tokens@.len());
        }
        if tokens.len() > 0 {
            return None;
        }
    }
    Some(hash_bag(text, dim))
}

// --------------------------------------------------------------------- bytes

/// The bytes of the words, four for each, the lowest first.
pub open spec fn word_bytes(v: Seq<u32>) -> Seq<u8>
    decreases v.len(),
{
    if v.len() == 0 {
        Seq::empty()
    } else {
        let w = v.last();
        word_bytes(v.drop_last()) + seq![
            (w % 0x100) as u8,
            (w / 0x100 % 0x100) as u8,
            (w / 0x1_0000 % 0x100) as u8,
            (w / 0x100_0000) as u8,
        ]
    }
}

/// The words that the bytes write; up to three bytes at the end are left over.
pub open spec fn byte_words(b: Seq<u8>) -> Seq<u32> {
    Seq::new(b.len() / 4, |i: int| le_u32(b, 4 * i) as u32)
}

/// The bit patterns of an embedding as bytes.
pub fn vec_to_bytes(v: &Vec<u32>) -> (r: Vec<u8>)
    ensures
        r@ == word_bytes(v@),
{
    let mut out: Vec<u8> = Vec::new();
    let mut i: usize = 0;
    proof {
        assert(v@.take(0) =~= Seq::<u32>::empty());
        assert(out@ =~= word_bytes(v@.take(0)));
    }
    while i < v.len()
        invariant
            i <= v@.len(),
            out@ == word_bytes(v@.take(i as int)),
        decreases v.len() - i,
    {
        let w: u32 = v[i];
        let ghost had = out@;
        out.push((w % 0x100) as u8);
        out.push((w / 0x100 % 0x100) as u8);
        out.push((w / 0x1_0000 % 0x100) as u8);
        out.push((w / 0x100_0000) as u8);
        proof {
            assert(v@.take(i + 1).drop_last() =~= v@.take(i as int));
            assert(out@ =~= word_bytes(v@.take(i + 1)));
        }
        i += 1;
    }
    proof {
        assert(v@.take(v@.len() as int) =~= v@);
    }
    out
}

/// The bit patterns of an embedding from its bytes.
pub fn bytes_to_vec(b: &Vec<u8>) -> (r: Vec<u32>)
    ensures
        r@ == byte_words(b@),
{
    let total: usize = b.len();
    let n: usize = total / 4;
    let mut out: Vec<u32> = Vec::new();
    let mut i: usize = 0;
    while i < n
        invariant
            total == b@.len(),
            n == total / 4,
            i <= n,
            out@ =~= byte_words(b@).take(i as int),
        decreases n - i,
    {
        let at: usize = 4 * i;
        let w: u32 = b[at] as u32 + 0x100 * b[at + 1] as u32 + 0x1_0000 * b[at + 2] as u32
            + 0x100_0000 * b[at + 3] as u32;
        out.push(w);
        i += 1;
    }
    out
}

proof fn lemma_word_bytes_len(v: Seq<u32>)
    ensures
        word_bytes(v).len() == 4 * v.len(),
    decreases v.len(),
{
    if v.len() > 0 {
        lemma_word_bytes_len(v.drop_last());
    }
}

/// A word is made up of its four bytes.
proof fn lemma_word_of_bytes(w: u32)
    ensures
        w % 0x100 + 0x100 * (w / 0x100 % 0x100) + 0x1_0000 * (w / 0x1_0000 % 0x100) + 0x100_0000 * (w
            / 0x100_0000) == w,
        w / 0x100_0000 < 0x100,
{
    assert(w % 0x100 + 0x100 * (w / 0x100 % 0x100) + 0x1_0000 * (w / 0x1_0000 % 0x100) + 0x100_0000
        * (w / 0x100_0000) == w) by (bit_vector);
}

/// The words that bytes write, when four more bytes come behind them.
proof fn lemma_byte_words_grow(head: Seq<u8>, w: u32)
    requires
        head.len() % 4 == 0,
    ensures
        byte_words(
            head + seq![
                (w % 0x100) as u8,
                (w / 0x100 % 0x100) as u8,
                (w / 0x1_0000 % 0x100) as u8,
                (w / 0x100_0000) as u8,
            ],
        ) == byte_words(head).push(w),
{
    let tail = seq![
        (w % 0x100) as u8,
        (w / 0x100 % 0x100) as u8,
        (w / 0x1_0000 % 0x100) as u8,
        (w / 0x100_0000) as u8,
    ];
    let b = head + tail;
    let n = head.len() / 4;
    assert(b.len() / 4 == n + 1);
    assert(le_u32(b, 4 * (n as int)) == w) by {
        lemma_word_of_bytes(w);
        assert(b[4 * (n as int)] == tail[0]);
        assert(b[4 * (n as int) + 1] == tail[1]);
        assert(b[4 * (n as int) + 2] == tail[2]);
        assert(b[4 * (n as int) + 3] == tail[3]);
    }
    assert forall|i: int| 0 <= i < n implies le_u32(b, 4 * i) == #[trigger] le_u32(head, 4 * i) by {
        assert(b[4 * i] == head[4 * i]);
        assert(b[4 * i + 1] == head[4 * i + 1]);
        assert(b[4 * i + 2] == head[4 * i + 2]);
        assert(b[4 * i + 3] == head[4 * i + 3]);
    }
    assert(byte_words(b) =~= byte_words(head).push(w));
}

/// An embedding that was written is read back.
pub proof fn law_bytes_round_trip(v: Seq<u32>)
    ensures
        byte_words(word_bytes(v)) == v,
    decreases v.len(),
{
    if v.len() > 0 {
        law_bytes_round_trip(v.drop_last());
        lemma_word_bytes_len(v.drop_last());
        lemma_byte_words_grow(word_bytes(v.drop_last()), v.last());
        assert(v.drop_last().push(v.last()) =~= v);
    } else {
        assert(byte_words(word_bytes(v)) =~= v);
    }
}

/// An empty text falls into no bucket.
pub proof fn law_empty_text_counts_nothing(dim: nat, d: int)
    ensures
        bag_count(Seq::empty(), dim, d) == 0,
{
}

/// The number that four bytes of a hash write, the lowest first, brought below `dim`,
/// names a bucket: the first four bytes one, the next four the other.
pub proof fn law_buckets_of_a_hash(h: Seq<u8>, dim: nat)
    requires
        h.len() >= 8,
        dim > 0,
    ensures
        buckets(h, dim).0 == (h[0] + 256 * h[1] + 65536 * h[2] + 16777216 * h[3]) % dim as int,
        buckets(h, dim).1 == (h[4] + 256 * h[5] + 65536 * h[6] + 16777216 * h[7]) % dim as int,
        0 <= buckets(h, dim).0 < dim,
        0 <= buckets(h, dim).1 < dim,
{
}

proof fn lemma_counts_prefix(a: Seq<Seq<char>>, b: Seq<Seq<char>>, dim: nat, d: int, n: nat)
    requires
        n <= a.len(),
        n <= b.len(),
        forall|i: int| 0 <= i < n ==> a[i] == b[i],
    ensures
        word_count(a, dim, d, n) == word_count(b, dim, d, n),
        n > 0 ==> pair_count(a, dim, d, (n - 1) as nat) == pair_count(b, dim, d, (n - 1) as nat),
    decreases n,
{
    if n > 0 {
        lemma_counts_prefix(a, b, dim, d, (n - 1) as nat);
    }
}

/// Each word adds its own part: a whole, which is two halves, to each of the two
/// buckets of its own hash, and with the word before it a half to each of the two
/// buckets of the pair. No words add nothing.
pub proof fn law_each_word_adds_its_own(tokens: Seq<Seq<char>>, w: Seq<char>, dim: nat, d: int)
    requires
        dim > 0,
    ensures
        bag_count(Seq::empty(), dim, d) == 0,
        ({
            let own = buckets(sha256_of(w).take(8), dim);
            let added = bag_count(tokens.push(w), dim, d) - bag_count(tokens, dim, d);
            let whole = (if own.0 == d {
                2int
            } else {
                0
            }) + (if own.1 == d {
                2int
            } else {
                0
            });
            if tokens.len() == 0 {
                added == whole
            } else {
                let both = buckets(sha256_of(tokens.last() + " "@ + w).take(8), dim);
                added == whole + (if both.0 == d {
                    1int
                } else {
                    0
                }) + (if both.1 == d {
                    1int
                } else {
                    0
                })
            }
        }),
{
    let more = tokens.push(w);
    let n = tokens.len();
    lemma_counts_prefix(tokens, more, dim, d, n);
    assert(more[n as int] == w);
    reveal_with_fuel(word_count, 2);
    reveal_with_fuel(pair_count, 2);
    if n > 0 {
        assert(more[n - 1] == tokens.last());
    }
}

proof fn lemma_word_counts(tokens: Seq<Seq<char>>, dim: nat, d: int, n: nat, i: int)
    requires
        0 <= i < n,
        n <= tokens.len(),
    ensures
        word_count(tokens, dim, d, n) >= share(tokens[i], dim, d, 2),
    decreases n,
{
    if i < n - 1 {
        lemma_word_counts(tokens, dim, d, (n - 1) as nat, i);
    }
}

/// Every word of a text is counted: both buckets of its hash hold at least a whole.
pub proof fn law_every_word_counts(tokens: Seq<Seq<char>>, dim: nat, i: int)
    requires
        dim > 0,
        0 <= i < tokens.len(),
    ensures
        ({
            let own = buckets(sha256_of(tokens[i]).take(8), dim);
            &&& bag_count(tokens, dim, own.0) >= 2
            &&& bag_count(tokens, dim, own.1) >= 2
        }),
{
    let own = buckets(sha256_of(tokens[i]).take(8), dim);
    lemma_word_counts(tokens, dim, own.0, tokens.len(), i);
    lemma_word_counts(tokens, dim, own.1, tokens.len(), i);
}

/// What the buckets up to `n` hold together.
pub open spec fn bag_total(tokens: Seq<Seq<char>>, dim: nat, n: nat) -> nat
    decreases n,
{
    if n == 0 {
        0
    } else {
        bag_total(tokens, dim, (n - 1) as nat) + bag_count(tokens, dim, n - 1)
    }
}

proof fn lemma_total_step(tokens: Seq<Seq<char>>, w: Seq<char>, dim: nat, n: nat)
    requires
        dim > 0,
        n <= dim,
    ensures
        ({
            let own = buckets(sha256_of(w).take(8), dim);
            let both = buckets(sha256_of(tokens.last() + " "@ + w).take(8), dim);
            bag_total(tokens.push(w), dim, n) == bag_total(tokens, dim, n) + (if own.0 < n {
                2int
            } else {
                0
            }) + (if own.1 < n {
                2int
            } else {
                0
            }) + (if tokens.len() > 0 && both.0 < n {
                1int
            } else {
                0
            }) + (if tokens.len() > 0 && both.1 < n {
                1int
            } else {
                0
            })
        }),
    decreases n,
{
    if n > 0 {
        lemma_total_step(tokens, w, dim, (n - 1) as nat);
        law_each_word_adds_its_own(tokens, w, dim, n - 1);
    }
}

proof fn lemma_empty_total(dim: nat, n: nat)
    ensures
        bag_total(Seq::empty(), dim, n) == 0,
    decreases n,
{
    if n > 0 {
        lemma_empty_total(dim, (n - 1) as nat);
    }
}

/// Nothing is lost and nothing is made up: all buckets together hold two wholes for
/// each word and two halves for each pair of neighbours.
pub proof fn law_bag_holds_all(tokens: Seq<Seq<char>>, dim: nat)
    requires
        dim > 0,
    ensures
        bag_total(tokens, dim, dim) == (if tokens.len() == 0 {
            0
        } else {
            4 * tokens.len() + 2 * (tokens.len() - 1)
        }),
    decreases tokens.len(),
{
    if tokens.len() == 0 {
        assert(tokens =~= Seq::<Seq<char>>::empty());
        lemma_empty_total(dim, dim);
    } else {
        let fewer = tokens.drop_last();
        law_bag_holds_all(fewer, dim);
        lemma_total_step(fewer, tokens.last(), dim, dim);
        assert(fewer.push(tokens.last()) =~= tokens);
    }
}

/// An embedding is kept as four bytes for each number, in order and the lowest byte
/// first.
pub proof fn law_bytes_are_little_endian(v: Seq<u32>, i: int)
    requires
        0 <= i < v.len(),
    ensures
        ({
            let b = word_bytes(v);
            &&& b.len() == 4 * v.len()
            &&& v[i] == b[4 * i] + 256 * b[4 * i + 1] + 65536 * b[4 * i + 2] + 16777216 * b[4 * i
                + 3]
        }),
    decreases v.len(),
{
    let w = v.last();
    let head = word_bytes(v.drop_last());
    if v.len() > 1 {
        law_bytes_are_little_endian(v.drop_last(), 0);
    } else {
        assert(v.drop_last() =~= Seq::<u32>::empty());
    }
    assert(head.len() == 4 * (v.len() - 1));
    if i < v.len() - 1 {
        law_bytes_are_little_endian(v.drop_last(), i);
        assert(v.drop_last()[i] == v[i]);
    }
}

} // verus!
