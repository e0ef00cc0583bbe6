//! Choosing the nearest of a ray's hits.
use vstd::prelude::*;

verus! {

/// Hit distances are carried as the bit patterns of non-negative IEEE-754
/// single-precision numbers (with `-0.0` written as `+0.0`). On such values
/// the integer order of the bits is the order of the distances.
/// `FAR` is the pattern of the largest finite distance: a hit at that
/// distance or beyond (infinite, or not a number) is never the nearest.
pub const FAR: u32 = 0x7f7f_ffff;

/// A hit that can be the nearest one.
pub open spec fn is_candidate(key: Option<u32>) -> bool {
    key matches Some(d) && d < FAR
}

/// Index of the nearest hit among `keys`, scanning in order and replacing
/// the current best only by a strictly nearer one.
pub open spec fn nearest(keys: Seq<Option<u32>>) -> Option<int>
    decreases keys.len(),
{
    if keys.len() == 0 {
        None
    } else {
        let best = nearest(keys.drop_last());
        let last = keys.last();
        if is_candidate(last) && (best matches Some(b) ==> last->0 < keys[b]->0) {
            Some(keys.len() - 1)
        } else {
            best
        }
    }
}

proof fn lemma_nearest_is_first_minimum(keys: Seq<Option<u32>>)
    ensures
        nearest(keys) is None <==> forall|j: int| 0 <= j < keys.len() ==> !is_candidate(#[trigger] keys[j]),
        nearest(keys) matches Some(i) ==> {
            &&& 0 <= i < keys.len()
            &&& is_candidate(keys[i])
            &&& forall|j: int| 0 <= j < i ==> !is_candidate(#[trigger] keys[j]) || keys[j]->0 > keys[i]->0
            &&& forall|j: int| i < j < keys.len() ==> !is_candidate(#[trigger] keys[j]) || keys[j]->0 >= keys[i]->0
        },
    decreases keys.len(),
{
    if keys.len() > 0 {
        let n = keys.len() - 1;
        let pre = keys.drop_last();
        lemma_nearest_is_first_minimum(pre);
        assert forall|j: int| 0 <= j < n implies #[trigger] pre[j] == keys[j] by {}
        let last = keys[n];
        assert(last == keys.last());
        match nearest(pre) {
            None => {
                if is_candidate(last) {
                    assert(nearest(keys) == Some(n));
                    assert forall|j: int| 0 <= j < n implies !is_candidate(#[trigger] keys[j]) by {
                        assert(!is_candidate(pre[j]));
                    }
                } else {
                    assert(nearest(keys) is None);
                    assert forall|j: int| 0 <= j < keys.len() implies !is_candidate(#[trigger] keys[j]) by {
                        if j < n {
                            assert(!is_candidate(pre[j]));
                        }
                    }
                }
            },
            Some(b) => {
                assert(pre[b] == keys[b]);
                if is_candidate(last) && last->0 < keys[b]->0 {
                    assert(nearest(keys) == Some(n));
                    assert forall|j: int| 0 <= j < n implies !is_candidate(#[trigger] keys[j]) || keys[j]->0 > last->0 by {
                        assert(pre[j] == keys[j]);
                        if j != b && is_candidate(keys[j]) {
                            assert(is_candidate(pre[j]));
                        }
                    }
                } else {
                    assert(nearest(keys) == Some(b));
                    assert forall|j: int| b < j < keys.len() implies !is_candidate(#[trigger] keys[j]) || keys[j]->0 >= keys[b]->0 by {
                        if j < n {
                            assert(pre[j] == keys[j]);
                        }
                    }
                    assert forall|j: int| 0 <= j < b implies !is_candidate(#[trigger] keys[j]) || keys[j]->0 > keys[b]->0 by {
                        assert(pre[j] == keys[j]);
                    }
                }
            },
        }
    }
}

/// Index of the nearest hit: the smallest distance below `FAR`, the first
/// one in the order of `keys` among equal distances. `None` where nothing
/// was hit.
pub fn closest_hit(keys: &Vec<Option<u32>>) -> (r: Option<usize>)
    ensures
        r is None <==> nearest(keys@) is None,
        r matches Some(i) ==> nearest(keys@) == Some(i as int),
        r is None <==> forall|j: int| 0 <= j < keys@.len() ==> !is_candidate(#[trigger] keys@[j]),
        r matches Some(i) ==> {
            &&& i < keys@.len()
            &&& is_candidate(keys@[i as int])
            &&& forall|j: int|
                0 <= j < i ==> !is_candidate(#[trigger] keys@[j]) || keys@[j]->0 > keys@[i as int]->0
            &&& forall|j: int|
                i < j < keys@.len() ==> !is_candidate(#[trigger] keys@[j]) || keys@[j]->0 >= keys@[i as int]->0
        },
{
    let mut best: Option<usize> = None;
    let mut best_key: u32 = FAR;
    let mut i: usize = 0;
    while i < keys.len()
        invariant
            i <= keys@.len(),
            best == (match nearest(keys@.subrange(0, i as int)) {
                Some(b) => Some(b as usize),
                None => None,
            }),
            best matches Some(b) ==> b < i && keys@[b as int] == Some(best_key) && best_key < FAR,
            best is None ==> best_key == FAR,
        decreases keys@.len() - i,
    {
        proof {
            let pre = keys@.subrange(0, i as int + 1);
            lemma_nearest_is_first_minimum(keys@.subrange(0, i as int));
            assert(pre.drop_last() =~= keys@.subrange(0, i as int));
            assert(pre.last() == keys@[i as int]);
            if let Some(b) = nearest(keys@.subrange(0, i as int)) {
                assert(pre[b] == keys@[b]);
            }
        }
        if let Some(d) = keys[i] {
            if d < best_key {
                best = Some(i);
                best_key = d;
            }
        }
        i = i + 1;
    }
    proof {
        assert(keys@.subrange(0, keys@.len() as int) =~= keys@);
        lemma_nearest_is_first_minimum(keys@);
    }
    best
}

} // verus!
