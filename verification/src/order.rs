use vstd::prelude::*;

use crate::text::{lemma_text_lt_order, text_less, text_lt};

verus! {

/// The texts of a list of keys.
pub open spec fn key_texts(keys: Seq<&str>) -> Seq<Seq<char>> {
    Seq::new(keys.len(), |i: int| keys[i]@)
}

/// Whether position `i` comes before position `j` when keys are listed from
/// the greatest down: its key is greater, or the keys are equal and `i` is
/// the lower position.
pub open spec fn precedes(keys: Seq<Seq<char>>, i: int, j: int) -> bool {
    text_lt(keys[j], keys[i]) || (keys[i] == keys[j] && i < j)
}

/// Whether position `i` is marked as wanted. A position without a mark is
/// not wanted.
pub open spec fn is_wanted(wanted: Seq<bool>, i: int) -> bool {
    0 <= i < wanted.len() && wanted[i]
}

/// Whether `order` lists every wanted position of `keys` once and no other,
/// from the greatest key down, positions with equal keys from the lowest up.
/// There is one such list for each list of keys and marks.
pub open spec fn is_ranking(keys: Seq<Seq<char>>, wanted: Seq<bool>, order: Seq<usize>) -> bool {
    &&& forall|k: int|
        0 <= k < order.len() ==> #[trigger] order[k] < keys.len() && is_wanted(wanted, order[k] as int)
    &&& forall|i: usize| i < keys.len() && is_wanted(wanted, i as int) ==> #[trigger] order.contains(i)
    &&& forall|k: int, l: int|
        0 <= k < l < order.len() ==> precedes(
            keys,
            #[trigger] order[k] as int,
            #[trigger] order[l] as int,
        )
}

/// No position stands twice in a ranking.
pub proof fn lemma_ranking_has_no_duplicates(keys: Seq<Seq<char>>, wanted: Seq<bool>, order: Seq<usize>)
    requires
        is_ranking(keys, wanted, order),
    ensures
        order.no_duplicates(),
{
    assert forall|k: int, l: int| 0 <= k < order.len() && 0 <= l < order.len() && k != l implies order[k]
        != order[l] by {
        let a = order[k] as int;
        lemma_text_lt_order(keys[a], keys[a], keys[a]);
        if k < l {
            assert(precedes(keys, order[k] as int, order[l] as int));
        } else {
            assert(precedes(keys, order[l] as int, order[k] as int));
        }
    }
}

/// A ranking in which every position is wanted lists as many positions as
/// there are keys, where a machine can count the keys.
pub proof fn lemma_full_ranking_lists_all(keys: Seq<Seq<char>>, wanted: Seq<bool>, order: Seq<usize>)
    requires
        is_ranking(keys, wanted, order),
        keys.len() <= usize::MAX,
        forall|i: int| 0 <= i < keys.len() ==> is_wanted(wanted, i),
    ensures
        order.len() == keys.len(),
{
    lemma_ranking_has_no_duplicates(keys, wanted, order);
    let places = Seq::new(order.len(), |k: int| order[k] as int);
    assert(places.no_duplicates()) by {
        assert forall|k: int, l: int|
            0 <= k < places.len() && 0 <= l < places.len() && k != l implies places[k]
            != places[l] by {
            assert(order[k] != order[l]);
        }
    }
    places.unique_seq_to_set();
    vstd::set_lib::lemma_int_range(0, keys.len() as int);
    assert(places.to_set() =~= vstd::set_lib::set_int_range(0, keys.len() as int)) by {
        assert forall|x: int| places.to_set().contains(x) == (0 <= x < keys.len()) by {
            if places.to_set().contains(x) {
                let k = choose|k: int| 0 <= k < places.len() && places[k] == x;
                assert(order[k] < keys.len());
            }
            if 0 <= x < keys.len() {
                assert(is_wanted(wanted, x));
                assert(order.contains(x as usize));
                let k = choose|k: int| 0 <= k < order.len() && order[k] == x as usize;
                assert(places[k] == x);
                assert(places.contains(x));
            }
        }
    }
}

/// Lists the wanted positions of `keys` from the greatest key down, positions
/// with equal keys from the lowest up.
pub fn ranked_positions(keys: &Vec<&str>, wanted: &Vec<bool>) -> (order: Vec<usize>)
    ensures
        is_ranking(key_texts(keys@), wanted@, order@),
{
    let ghost texts = key_texts(keys@);
    let mut order: Vec<usize> = Vec::new();
    let mut m: usize = 0;
    while m < keys.len()
        invariant
            texts == key_texts(keys@),
            m <= keys@.len(),
            order@.len() <= m,
            forall|k: int|
                0 <= k < order@.len() ==> #[trigger] order@[k] < m && is_wanted(
                    wanted@,
                    order@[k] as int,
                ),
            forall|i: usize| i < m && is_wanted(wanted@, i as int) ==> #[trigger] order@.contains(i),
            forall|k: int, l: int|
                0 <= k < l < order@.len() ==> precedes(
                    texts,
                    #[trigger] order@[k] as int,
                    #[trigger] order@[l] as int,
                ),
        decreases keys@.len() - m,
    {
        if m < wanted.len() && wanted[m] {
            // The place of `m`: before the first position with a smaller key.
            let mut p: usize = 0;
            while p < order.len() && !text_less(keys[order[p]], keys[m])
                invariant
                    texts == key_texts(keys@),
                    m < keys@.len(),
                    p <= order@.len(),
                    forall|k: int| 0 <= k < order@.len() ==> #[trigger] order@[k] < m,
                    forall|k: int|
                        0 <= k < p ==> !text_lt(
                            texts[#[trigger] order@[k] as int],
                            texts[m as int],
                        ),
                decreases order@.len() - p,
            {
                p += 1;
            }
            let ghost before = order@;
            order.insert(p, m);
            proof {
                assert forall|k: int, l: int| 0 <= k < l < order@.len() implies precedes(
                    texts,
                    #[trigger] order@[k] as int,
                    #[trigger] order@[l] as int,
                ) by {
                    let a = order@[k] as int;
                    let b = order@[l] as int;
                    if l == p {
                        // `a` stood before the place of `m`: its key is not smaller.
                        assert(a == before[k]);
                        lemma_text_lt_order(texts[a], texts[m as int], texts[m as int]);
                    } else if k == p {
                        // `b` stood at or behind the place of `m`: its key is smaller.
                        let first = before[p as int] as int;
                        assert(b == before[l - 1]);
                        assert(text_lt(texts[first], texts[m as int]));
                        if l - 1 > p {
                            assert(precedes(texts, before[p as int] as int, before[l - 1] as int));
                            lemma_text_lt_order(texts[b], texts[first], texts[m as int]);
                        }
                    } else {
                        let k0 = if k < p {
                            k
                        } else {
                            k - 1
                        };
                        let l0 = if l < p {
                            l
                        } else {
                            l - 1
                        };
                        assert(a == before[k0] && b == before[l0]);
                        assert(precedes(texts, before[k0] as int, before[l0] as int));
                    }
                }
                assert forall|i: usize| i < m + 1 && is_wanted(wanted@, i as int) implies #[trigger] order@.contains(
                    i,
                ) by {
                    if i == m {
                        assert(order@[p as int] == i);
                    } else {
                        assert(before.contains(i));
                        let k0 = choose|k: int| 0 <= k < before.len() && before[k] == i;
                        let k1 = if k0 < p {
                            k0
                        } else {
                            k0 + 1
                        };
                        assert(order@[k1] == i);
                    }
                }
                assert forall|k: int| 0 <= k < order@.len() implies #[trigger] order@[k] < m + 1
                    && is_wanted(wanted@, order@[k] as int) by {
                    if k != p {
                        let k0 = if k < p {
                            k
                        } else {
                            k - 1
                        };
                        assert(order@[k] == before[k0]);
                    }
                }
            }
        }
        m += 1;
    }
    order
}

} // verus!
