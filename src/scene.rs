//! Choice of the closest hit among the objects of a scene. Each object
//! reports either no hit or a hit keyed by its ray parameter, encoded so that
//! keys order as the parameters do (the bit pattern of a positive `f64`).
use vstd::prelude::*;

verus! {

/// Entry `i` of `keys` is the closest hit: it is a hit, no hit has a smaller
/// key, and no earlier hit has an equal one.
pub open spec fn is_closest(keys: Seq<Option<u64>>, i: int) -> bool {
    &&& 0 <= i < keys.len()
    &&& keys[i] is Some
    &&& forall|j: int|
        0 <= j < keys.len() && (#[trigger] keys[j]) is Some ==> keys[i]->0 <= keys[j]->0
    &&& forall|j: int| 0 <= j < i && (#[trigger] keys[j]) is Some ==> keys[i]->0 < keys[j]->0
}

/// No entry of `keys` is a hit.
pub open spec fn no_hit(keys: Seq<Option<u64>>) -> bool {
    forall|j: int| 0 <= j < keys.len() ==> (#[trigger] keys[j]) is None
}

/// The index of the closest hit (the first of equally close ones), or `None`
/// when nothing was hit.
pub fn closest_hit(keys: &Vec<Option<u64>>) -> (r: Option<usize>)
    ensures
        r is None <==> no_hit(keys@),
        r matches Some(i) ==> is_closest(keys@, i as int),
{
    let mut best: Option<usize> = None;
    let mut i: usize = 0;
    while i < keys.len()
        invariant
            i <= keys@.len(),
            best is None <==> no_hit(keys@.subrange(0, i as int)),
            best matches Some(b) ==> is_closest(keys@.subrange(0, i as int), b as int),
        decreases keys@.len() - i,
    {
        let ghost prefix = keys@.subrange(0, i as int);
        let ghost next = keys@.subrange(0, i + 1);
        assert(next =~= prefix.push(keys@[i as int]));
        if let Some(k) = keys[i] {
            match best {
                None => {
                    best = Some(i);
                },
                Some(b) => {
                    if k < keys[b].unwrap() {
                        best = Some(i);
                    }
                },
            }
        }
        proof {
            match best {
                Some(b) => {
                    if b as int != i as int {
                        assert(is_closest(prefix, b as int));
                    }
                    assert forall|j: int| 0 <= j < next.len() && (#[trigger] next[j]) is Some implies
                        next[b as int]->0 <= next[j]->0 by {
                        if j < i {
                            assert(next[j] == prefix[j]);
                        }
                    }
                },
                None => {},
            }
        }
        i = i + 1;
    }
    assert(keys@.subrange(0, keys@.len() as int) =~= keys@);
    best
}

} // verus!
