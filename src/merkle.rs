use vstd::prelude::*;
use starknet_crypto::{poseidon_hash, Felt};

verus! {

/// The Poseidon hash of two field elements read from big-endian bytes, as
/// big-endian bytes.
pub uninterp spec fn poseidon_pair(x: [u8; 32], y: [u8; 32]) -> [u8; 32];

/// Relies on starknet_crypto::poseidon_hash, reading both inputs with
/// Felt::from_bytes_be (which reduces modulo the field prime and does not fail
/// on 32 bytes) and writing the result with Felt::to_bytes_be: the hash is a
/// function of the two inputs alone.
#[verifier::external_body]
fn hash_pair(x: &[u8; 32], y: &[u8; 32]) -> (r: [u8; 32])
    ensures
        r == poseidon_pair(*x, *y),
{
    poseidon_hash(Felt::from_bytes_be(x), Felt::from_bytes_be(y)).to_bytes_be()
}

/// The leaf that pads a batch to a power of two.
pub open spec fn sentinel() -> [u8; 32] {
    [0u8; 32usize]
}

/// The level above: each node hashes a pair of neighbours.
pub open spec fn next_level(s: Seq<[u8; 32]>) -> Seq<[u8; 32]> {
    Seq::new(s.len() / 2, |i: int| poseidon_pair(s[2 * i], s[2 * i + 1]))
}

pub open spec fn is_pow2(n: nat) -> bool
    decreases n,
{
    if n <= 1 {
        n == 1
    } else {
        n % 2 == 0 && is_pow2(n / 2)
    }
}

/// The root of a tree whose bottom level is `s`.
pub open spec fn root_of(s: Seq<[u8; 32]>) -> [u8; 32]
    decreases s.len(),
{
    if s.len() <= 1 {
        s[0]
    } else {
        root_of(next_level(s))
    }
}

pub open spec fn sibling(i: int) -> int {
    if i % 2 == 0 {
        i + 1
    } else {
        i - 1
    }
}

/// The sibling hashes from leaf `i` of the bottom level `s` up to the root.
pub open spec fn path_of(s: Seq<[u8; 32]>, i: int) -> Seq<[u8; 32]>
    decreases s.len(),
{
    if s.len() <= 1 {
        Seq::empty()
    } else {
        seq![s[sibling(i)]] + path_of(next_level(s), i / 2)
    }
}

/// The root that leaf `h` at position `i` and its path lead to.
pub open spec fn fold_path(h: [u8; 32], i: int, path: Seq<[u8; 32]>) -> [u8; 32]
    decreases path.len(),
{
    if path.len() == 0 {
        h
    } else {
        let up = if i % 2 == 0 {
            poseidon_pair(h, path[0])
        } else {
            poseidon_pair(path[0], h)
        };
        fold_path(up, i / 2, path.drop_first())
    }
}

/// The width of the bottom level for `n` leaves: the least power of two that
/// is at least `n`, counting up from `w`.
pub open spec fn width_from(w: nat, n: nat) -> nat
    decreases n as int - w as int,
{
    if w == 0 || w >= n {
        w
    } else if 2 * w >= n {
        2 * w
    } else {
        width_from(2 * w, n)
    }
}

/// The width of the bottom level for `n` leaves: at least two.
pub open spec fn tree_width(n: nat) -> nat {
    width_from(2, n)
}

/// The leaves padded with the sentinel to the tree's width.
pub open spec fn padded(leaves: Seq<[u8; 32]>) -> Seq<[u8; 32]> {
    leaves + Seq::new((tree_width(leaves.len()) - leaves.len()) as nat, |i: int| sentinel())
}

/// Root of the batch tree over the leaves.
pub open spec fn batch_root(leaves: Seq<[u8; 32]>) -> [u8; 32] {
    root_of(padded(leaves))
}

/// Inclusion path of leaf `i` in the batch tree over the leaves.
pub open spec fn batch_path(leaves: Seq<[u8; 32]>, i: int) -> Seq<[u8; 32]> {
    path_of(padded(leaves), i)
}

proof fn lemma_width(w: nat, n: nat)
    requires
        is_pow2(w),
    ensures
        is_pow2(width_from(w, n)),
        width_from(w, n) >= n,
        width_from(w, n) >= w,
    decreases n as int - w as int,
{
    if w < n {
        assert(is_pow2(2 * w)) by {
            assert((2 * w) / 2 == w);
        }
        if 2 * w < n {
            lemma_width(2 * w, n);
        }
    }
}

proof fn lemma_next_level_pow2(s: Seq<[u8; 32]>)
    requires
        is_pow2(s.len()),
        s.len() > 1,
    ensures
        is_pow2(next_level(s).len()),
        next_level(s).len() * 2 == s.len(),
{
}

/// Following the path of any leaf from that leaf leads to the root.
proof fn lemma_fold_path(s: Seq<[u8; 32]>, i: int)
    requires
        is_pow2(s.len()),
        0 <= i < s.len(),
    ensures
        fold_path(s[i], i, path_of(s, i)) == root_of(s),
    decreases s.len(),
{
    if s.len() > 1 {
        lemma_next_level_pow2(s);
        let nx = next_level(s);
        let p = path_of(s, i);
        assert(p.drop_first() =~= path_of(nx, i / 2));
        assert(p[0] == s[sibling(i)]);
        let up = if i % 2 == 0 {
            poseidon_pair(s[i], p[0])
        } else {
            poseidon_pair(p[0], s[i])
        };
        assert(up == nx[i / 2]);
        lemma_fold_path(nx, i / 2);
    }
}

/// Each epoch's stored path proves its leaf: folding leaf `i` with its path
/// gives the batch root.
pub proof fn lemma_batch_inclusion(leaves: Seq<[u8; 32]>, i: int)
    requires
        0 <= i < leaves.len(),
    ensures
        fold_path(leaves[i], i, batch_path(leaves, i)) == batch_root(leaves),
{
    assert(is_pow2(1nat));
    assert(is_pow2(2nat));
    lemma_width(2, leaves.len());
    let s = padded(leaves);
    assert(s[i] == leaves[i]);
    lemma_fold_path(s, i);
}

/// The tree is a function of the leaves: the same header roots give the same
/// root and the same paths.
pub proof fn lemma_commitment_deterministic(a: Seq<[u8; 32]>, b: Seq<[u8; 32]>)
    requires
        a == b,
    ensures
        batch_root(a) == batch_root(b),
        forall|i: int| batch_path(a, i) == #[trigger] batch_path(b, i),
{
}

proof fn lemma_path_len(s: Seq<[u8; 32]>, i: int, k: int)
    requires
        is_pow2(s.len()),
    ensures
        path_of(s, i).len() == path_of(s, k).len(),
    decreases s.len(),
{
    if s.len() > 1 {
        lemma_next_level_pow2(s);
        lemma_path_len(next_level(s), i / 2, k / 2);
    }
}

/// Every leaf of a batch has a path of the same length: the depth of the tree.
pub proof fn lemma_batch_paths_same_depth(leaves: Seq<[u8; 32]>, i: int, k: int)
    ensures
        batch_path(leaves, i).len() == batch_path(leaves, k).len(),
        batch_path(leaves, i).len() >= 1,
{
    assert(is_pow2(1nat));
    assert(is_pow2(2nat));
    lemma_width(2, leaves.len());
    lemma_path_len(padded(leaves), i, k);
    assert(padded(leaves).len() >= 2);
}

/// The Merkle commitment of one batch: the root and one path per leaf.
#[derive(Debug)]
pub struct BatchCommitment {
    pub root: [u8; 32],
    pub paths: Vec<Vec<[u8; 32]>>,
}

/// Level `k` of the tree whose bottom level is `s`.
pub open spec fn level(s: Seq<[u8; 32]>, k: nat) -> Seq<[u8; 32]>
    decreases k,
{
    if k == 0 {
        s
    } else {
        next_level(level(s, (k - 1) as nat))
    }
}

fn hash_level(cur: &Vec<[u8; 32]>) -> (r: Vec<[u8; 32]>)
    ensures
        r@ == next_level(cur@),
{
    let half = cur.len() / 2;
    let mut out: Vec<[u8; 32]> = Vec::new();
    let mut i: usize = 0;
    while i < half
        invariant
            half == cur@.len() / 2,
            half * 2 <= cur@.len(),
            cur@.len() <= usize::MAX,
            i <= half,
            out@.len() == i,
            forall|k: int| 0 <= k < i ==> out@[k] == poseidon_pair(cur@[2 * k], cur@[2 * k + 1]),
        decreases half - i,
    {
        let left: usize = i + i;
        out.push(hash_pair(&cur[left], &cur[left + 1]));
        i = i + 1;
    }
    assert(out@ =~= next_level(cur@));
    out
}

/// The Merkle tree over the header roots of a batch, in epoch order, padded
/// with the sentinel to a power of two (at least two leaves).
pub fn batch_commitment(leaves: &Vec<[u8; 32]>) -> (r: BatchCommitment)
    requires
        leaves@.len() > 0,
        leaves@.len() <= usize::MAX / 2,
    ensures
        r.root == batch_root(leaves@),
        r.paths@.len() == leaves@.len(),
        forall|i: int| 0 <= i < leaves@.len() ==> #[trigger] r.paths@[i]@ == batch_path(leaves@, i),
{
    let n = leaves.len();
    let mut width: usize = 2;
    assert(is_pow2(1nat));
    assert(is_pow2(2nat));
    while width < n
        invariant
            is_pow2(width as nat),
            width >= 2,
            width_from(width as nat, n as nat) == tree_width(n as nat),
            n <= usize::MAX / 2,
            width <= usize::MAX / 2 || width >= n,
        decreases usize::MAX - width,
    {
        assert(is_pow2(2 * width as nat)) by {
            assert((2 * width as nat) / 2 == width as nat);
        }
        width = width * 2;
    }
    let mut bottom: Vec<[u8; 32]> = Vec::new();
    let mut i: usize = 0;
    while i < width
        invariant
            i <= width,
            n == leaves@.len(),
            n <= width,
            bottom@.len() == i,
            forall|k: int| 0 <= k < i ==> bottom@[k] == if k < n {
                leaves@[k]
            } else {
                sentinel()
            },
        decreases width - i,
    {
        if i < n {
            bottom.push(leaves[i]);
        } else {
            bottom.push([0u8; 32]);
        }
        i = i + 1;
    }
    let ghost s = padded(leaves@);
    assert(bottom@ =~= s);
    let mut levels: Vec<Vec<[u8; 32]>> = Vec::new();
    let mut cur = bottom;
    while cur.len() > 1
        invariant
            is_pow2(cur@.len() as nat),
            cur@ == level(s, levels@.len() as nat),
            forall|k: int| 0 <= k < levels@.len() ==> #[trigger] levels@[k]@ == level(s, k as nat),
            forall|k: int| 0 <= k < levels@.len() ==> (#[trigger] levels@[k]@).len() > 1,
            forall|k: int| 0 <= k < levels@.len() ==> is_pow2((#[trigger] levels@[k]@).len()),
        decreases cur@.len(),
    {
        let next = hash_level(&cur);
        proof {
            lemma_next_level_pow2(cur@);
        }
        levels.push(cur);
        cur = next;
    }
    assert(cur@.len() == 1);
    let root = cur[0];
    levels.push(cur);
    let top = levels.len() - 1;
    proof {
        assert(levels@[top as int]@ == level(s, top as nat));
        assert forall|q: nat| q < top as nat implies (#[trigger] level(s, q)).len() > 1 by {
            assert(levels@[q as int]@ == level(s, q));
        }
        lemma_root_of_levels(s, top as nat);
    }
    let mut paths: Vec<Vec<[u8; 32]>> = Vec::new();
    let mut leaf: usize = 0;
    while leaf < n
        invariant
            leaf <= n,
            n == leaves@.len(),
            s == padded(leaves@),
            s.len() == width,
            top == levels@.len() - 1,
            forall|k: int| 0 <= k < levels@.len() ==> #[trigger] levels@[k]@ == level(s, k as nat),
            forall|k: int| 0 <= k < top ==> (#[trigger] levels@[k]@).len() > 1,
            forall|k: int| 0 <= k < levels@.len() ==> is_pow2((#[trigger] levels@[k]@).len()),
            levels@[top as int]@.len() == 1,
            paths@.len() == leaf,
            forall|a: int| 0 <= a < leaf ==> #[trigger] paths@[a]@ == path_of(s, a),
        decreases n - leaf,
    {
        let mut path: Vec<[u8; 32]> = Vec::new();
        let mut idx: usize = leaf;
        let mut k: usize = 0;
        while k < top
            invariant
                k <= top,
                top == levels@.len() - 1,
                forall|q: int| 0 <= q < levels@.len() ==> #[trigger] levels@[q]@ == level(s, q as nat),
                forall|q: int| 0 <= q < top ==> (#[trigger] levels@[q]@).len() > 1,
                forall|q: int| 0 <= q < levels@.len() ==> is_pow2((#[trigger] levels@[q]@).len()),
                levels@[top as int]@.len() == 1,
                is_pow2(levels@[k as int]@.len() as nat),
                idx < levels@[k as int]@.len(),
                path_of(s, leaf as int) == path@ + path_of(levels@[k as int]@, idx as int),
            decreases top - k,
        {
            let lv = &levels[k];
            let sib = if idx % 2 == 0 {
                idx + 1
            } else {
                idx - 1
            };
            proof {
                let cur_s = levels@[k as int]@;
                lemma_next_level_pow2(cur_s);
                assert(levels@[k + 1]@ == next_level(cur_s));
                assert(path_of(cur_s, idx as int) == seq![cur_s[sibling(idx as int)]] + path_of(
                    next_level(cur_s),
                    idx as int / 2,
                ));
                assert(sib < cur_s.len()) by {
                    assert(cur_s.len() % 2 == 0);
                }
            }
            let ghost before = path@;
            path.push(lv[sib]);
            proof {
                assert(path@ + path_of(levels@[k + 1]@, idx as int / 2) =~= before + path_of(
                    levels@[k as int]@,
                    idx as int,
                ));
            }
            idx = idx / 2;
            k = k + 1;
        }
        proof {
            assert(path_of(levels@[top as int]@, idx as int) =~= Seq::<[u8; 32]>::empty());
            assert(path@ =~= path_of(s, leaf as int));
        }
        paths.push(path);
        leaf = leaf + 1;
    }
    BatchCommitment { root, paths }
}

proof fn lemma_root_of_levels(s: Seq<[u8; 32]>, k: nat)
    requires
        level(s, k).len() == 1,
        forall|q: nat| q < k ==> (#[trigger] level(s, q)).len() > 1,
    ensures
        root_of(s) == level(s, k)[0],
    decreases k,
{
    if k > 0 {
        lemma_root_of_level_shift(s, k);
    }
}

proof fn lemma_root_of_level_shift(s: Seq<[u8; 32]>, k: nat)
    requires
        level(s, k).len() == 1,
        forall|q: nat| q < k ==> (#[trigger] level(s, q)).len() > 1,
    ensures
        root_of(s) == level(s, k)[0],
    decreases k,
{
    if k == 0 {
    } else {
        assert(s.len() > 1) by {
            assert(level(s, 0) == s);
        }
        let nx = next_level(s);
        lemma_level_shift(s, k);
        assert forall|q: nat| q < (k - 1) as nat implies (#[trigger] level(nx, q)).len() > 1 by {
            lemma_level_shift(s, q + 1);
        }
        lemma_root_of_level_shift(nx, (k - 1) as nat);
    }
}

/// Level `k` of `s` is level `k - 1` of the level above `s`.
proof fn lemma_level_shift(s: Seq<[u8; 32]>, k: nat)
    requires
        k > 0,
    ensures
        level(s, k) == level(next_level(s), (k - 1) as nat),
    decreases k,
{
    if k > 1 {
        lemma_level_shift(s, (k - 1) as nat);
        assert(level(s, k) == next_level(level(s, (k - 1) as nat)));
        assert(level(next_level(s), (k - 1) as nat) == next_level(
            level(next_level(s), (k - 2) as nat),
        ));
    } else {
        assert(level(s, 0) == s);
        assert(level(next_level(s), 0) == next_level(s));
    }
}

} // verus!
