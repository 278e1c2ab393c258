//! Merkle root of a list of hex digests: the list is reduced level by level,
//! duplicating the last entry of an odd level and hashing neighbours in pairs,
//! until one digest is left.

use vstd::prelude::*;
use crate::crypto::{sha256_hex, sha256_hex_of};
use crate::text::{is_lower_hex, push_char};

verus! {

/// The views of a list of strings.
pub open spec fn string_views(v: Seq<String>) -> Seq<Seq<char>> {
    v.map_values(|s: String| s@)
}

/// The digest of two neighbours: SHA-256 (as hex) of their concatenation.
pub open spec fn hash_pair_of(a: Seq<char>, b: Seq<char>) -> Seq<char> {
    sha256_hex_of(a + b)
}

/// A level with its last entry repeated when it has an odd number of entries.
pub open spec fn pad_level(level: Seq<Seq<char>>) -> Seq<Seq<char>> {
    if level.len() % 2 == 1 {
        level.push(level.last())
    } else {
        level
    }
}

/// Hashes entries `2i` and `2i + 1` of an even-length level into entry `i`.
pub open spec fn pair_up(level: Seq<Seq<char>>) -> Seq<Seq<char>> {
    Seq::new(level.len() / 2, |i: int| hash_pair_of(level[2 * i], level[2 * i + 1]))
}

/// The level above `level`.
pub open spec fn next_level(level: Seq<Seq<char>>) -> Seq<Seq<char>> {
    pair_up(pad_level(level))
}

/// The single digest that a non-empty level reduces to.
pub open spec fn merkle_reduce(level: Seq<Seq<char>>) -> Seq<char>
    decreases level.len(),
{
    if level.len() <= 1 {
        level[0]
    } else {
        merkle_reduce(next_level(level))
    }
}

/// The Merkle root of a list of digests; the text `0` for an empty list.
pub open spec fn merkle_root(hashes: Seq<Seq<char>>) -> Seq<char> {
    if hashes.len() == 0 {
        seq!['0']
    } else {
        merkle_reduce(hashes)
    }
}

/// The Merkle root of a single digest is that digest.
pub proof fn lemma_merkle_root_single(h: Seq<char>)
    ensures
        merkle_root(seq![h]) == h,
{
}

/// Repeating the last digest of an odd list of at least three digests does
/// not change its Merkle root: the reduction pads odd levels in the same way.
pub proof fn lemma_merkle_root_odd_padding(hashes: Seq<Seq<char>>)
    requires
        hashes.len() > 1,
        hashes.len() % 2 == 1,
    ensures
        merkle_root(hashes.push(hashes.last())) == merkle_root(hashes),
{
    let longer = hashes.push(hashes.last());
    assert(pad_level(longer) =~= pad_level(hashes));
    assert(next_level(longer) =~= next_level(hashes));
}

/// Whether `n` is a power of two.
pub open spec fn is_power_of_two(n: nat) -> bool
    decreases n,
{
    if n == 1 {
        true
    } else if n == 0 || n % 2 == 1 {
        false
    } else {
        is_power_of_two(n / 2)
    }
}

/// For two lists of equal power-of-two length, the Merkle root of the two
/// together is the SHA-256 (as hex) of the root of the first followed by the
/// root of the second: every digest of both lists enters the root.
pub proof fn lemma_merkle_root_of_halves(left: Seq<Seq<char>>, right: Seq<Seq<char>>)
    requires
        left.len() == right.len(),
        is_power_of_two(left.len()),
    ensures
        merkle_root(left + right) == sha256_hex_of(merkle_root(left) + merkle_root(right)),
    decreases left.len(),
{
    let both = left + right;
    if left.len() == 1 {
        assert(pad_level(both) == both);
        assert(next_level(both) =~= seq![sha256_hex_of(left[0] + right[0])]) by {
            assert(both[0] == left[0]);
            assert(both[1] == right[0]);
        }
        assert(merkle_reduce(next_level(both)) == next_level(both)[0]);
    } else {
        assert(left.len() % 2 == 0);
        let half_left = next_level(left);
        let half_right = next_level(right);
        assert(pad_level(left) == left);
        assert(pad_level(right) == right);
        assert(pad_level(both) == both);
        assert(next_level(both) =~= half_left + half_right) by {
            assert forall|i: int| 0 <= i < left.len() / 2 implies #[trigger] next_level(both)[i]
                == half_left[i] by {
                assert(both[2 * i] == left[2 * i]);
                assert(both[2 * i + 1] == left[2 * i + 1]);
            }
            assert forall|i: int| left.len() / 2 <= i < left.len() implies #[trigger] next_level(
                both,
            )[i] == half_right[i - left.len() / 2] by {
                let j = i - left.len() / 2;
                assert(both[2 * i] == right[2 * j]);
                assert(both[2 * i + 1] == right[2 * j + 1]);
            }
        }
        lemma_merkle_root_of_halves(half_left, half_right);
        assert(merkle_root(left) == merkle_root(half_left));
        assert(merkle_root(right) == merkle_root(half_right));
    }
}

fn hash_pair(a: &str, b: &str) -> (res: String)
    ensures
        res@ == hash_pair_of(a@, b@),
        res@.len() == 64,
        is_lower_hex(res@),
{
    let mut input = a.to_owned();
    input.append(b);
    sha256_hex(input.as_str())
}

/// Computes the Merkle root of `hashes`. The root of two or more digests is
/// itself a digest: 64 lower-case hexadecimal digits.
pub fn compute_merkle_root(hashes: Vec<String>) -> (root: String)
    ensures
        root@ == merkle_root(string_views(hashes@)),
        hashes@.len() >= 2 ==> root@.len() == 64 && is_lower_hex(root@),
{
    let ghost leaves = string_views(hashes@);
    let mut hashes = hashes;
    if hashes.len() == 0 {
        let mut zero = String::new();
        push_char(&mut zero, '0');
        assert(zero@ =~= seq!['0']);
        return zero;
    }
    let ghost mut reduced = false;
    while hashes.len() > 1
        invariant
            hashes.len() >= 1,
            merkle_reduce(string_views(hashes@)) == merkle_reduce(leaves),
            leaves.len() >= 2 ==> reduced || hashes.len() >= 2,
            reduced ==> forall|j: int|
                0 <= j < hashes@.len() ==> #[trigger] hashes@[j]@.len() == 64 && is_lower_hex(hashes@[j]@),
        decreases hashes.len(),
    {
        let ghost level = string_views(hashes@);
        if hashes.len() % 2 != 0 {
            let last = hashes[hashes.len() - 1].clone();
            hashes.push(last);
        }
        assert(string_views(hashes@) =~= pad_level(level));
        let ghost padded = pad_level(level);
        let half: usize = hashes.len() / 2;
        let mut next: Vec<String> = Vec::new();
        let mut i: usize = 0;
        while i < half
            invariant
                half == hashes.len() / 2,
                hashes.len() % 2 == 0,
                padded == string_views(hashes@),
                i <= half,
                next.len() == i,
                forall|j: int| 0 <= j < i ==> #[trigger] next@[j]@ == pair_up(padded)[j],
                forall|j: int| 0 <= j < i ==> #[trigger] next@[j]@.len() == 64 && is_lower_hex(next@[j]@),
            decreases half - i,
        {
            let h = hash_pair(hashes[2 * i].as_str(), hashes[2 * i + 1].as_str());
            next.push(h);
            i = i + 1;
        }
        assert(string_views(next@) =~= next_level(level));
        hashes = next;
        proof {
            reduced = true;
        }
    }
    assert(hashes@[0]@ == string_views(hashes@)[0]);
    hashes.remove(0)
}

} // verus!
