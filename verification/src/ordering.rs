//! Stable ascending orders: the places of a sequence of keys, arranged so
//! that the keys ascend and equal keys keep the order they came in.

use vstd::prelude::*;
use vstd::set_lib::{lemma_int_range, lemma_subset_equality, set_int_range};

verus! {

/// Whether place `i` stands before place `j` once the places are put in
/// ascending order of their keys: the smaller key first, and of two equal
/// keys the one that came first.
pub open spec fn comes_before(keys: Seq<i128>, i: int, j: int) -> bool {
    keys[i] < keys[j] || (keys[i] == keys[j] && i < j)
}

/// Whether `order` lists the places of `keys` in ascending order of the
/// keys they hold.
pub open spec fn is_ascending_order(order: Seq<usize>, keys: Seq<i128>) -> bool {
    &&& order.len() == keys.len()
    &&& forall|a: int| 0 <= a < order.len() ==> (#[trigger] order[a]) < keys.len()
    &&& forall|a: int, b: int|
        0 <= a < b < order.len() ==> comes_before(
            keys,
            #[trigger] order[a] as int,
            #[trigger] order[b] as int,
        )
}

/// Where a new place with the key `key` goes into an order of earlier
/// places: behind the last one whose key is not above it.
pub open spec fn insertion_place(order: Seq<usize>, keys: Seq<i128>, key: int) -> int
    decreases order.len(),
{
    if order.len() == 0 {
        0
    } else if keys[order.last() as int] <= key {
        order.len() as int
    } else {
        insertion_place(order.drop_last(), keys, key)
    }
}

/// The places of `keys` in ascending order of the keys they hold.
pub open spec fn ascending_order_of(keys: Seq<i128>) -> Seq<usize>
    decreases keys.len(),
{
    if keys.len() == 0 {
        Seq::empty()
    } else {
        let earlier = ascending_order_of(keys.drop_last());
        earlier.insert(
            insertion_place(earlier, keys, keys.last() as int),
            (keys.len() - 1) as usize,
        )
    }
}

proof fn lemma_insertion_place(order: Seq<usize>, keys: Seq<i128>, key: int)
    requires
        forall|a: int| 0 <= a < order.len() ==> (#[trigger] order[a]) < keys.len(),
        forall|a: int, b: int|
            0 <= a < b < order.len() ==> keys[#[trigger] order[a] as int]
                <= keys[#[trigger] order[b] as int],
    ensures
        0 <= insertion_place(order, keys, key) <= order.len(),
        forall|a: int|
            0 <= a < insertion_place(order, keys, key) ==> keys[#[trigger] order[a] as int]
                <= key,
        forall|b: int|
            insertion_place(order, keys, key) <= b < order.len() ==> key
                < keys[#[trigger] order[b] as int],
    decreases order.len(),
{
    if order.len() == 0 {
    } else if keys[order.last() as int] <= key {
        assert forall|a: int| 0 <= a < order.len() implies keys[#[trigger] order[a] as int]
            <= key by {
            if a < order.len() - 1 {
                assert(keys[order[a] as int] <= keys[order[order.len() - 1] as int]);
            }
        }
    } else {
        let shorter = order.drop_last();
        assert forall|a: int, b: int| 0 <= a < b < shorter.len() implies keys[#[trigger] shorter[a] as int]
            <= keys[#[trigger] shorter[b] as int] by {
            assert(shorter[a] == order[a] && shorter[b] == order[b]);
        }
        lemma_insertion_place(shorter, keys, key);
        let p = insertion_place(order, keys, key);
        assert forall|a: int| 0 <= a < p implies keys[#[trigger] order[a] as int]
            <= key by {
            assert(order[a] == shorter[a]);
        }
        assert forall|b: int| p <= b < order.len() implies key < keys[#[trigger] order[b] as int] by {
            if b < order.len() - 1 {
                assert(order[b] == shorter[b]);
            }
        }
    }
}

/// Putting the newest place into an ascending order of the earlier places,
/// behind the last key that is not above the new one, gives an ascending
/// order of all places.
proof fn lemma_insert_keeps_order(earlier: Seq<usize>, keys: Seq<i128>, p: int)
    requires
        0 < keys.len() <= usize::MAX,
        is_ascending_order(earlier, keys.drop_last()),
        0 <= p <= earlier.len(),
        forall|a: int|
            0 <= a < p ==> keys[#[trigger] earlier[a] as int] <= keys.last(),
        forall|b: int|
            p <= b < earlier.len() ==> keys.last() < keys[#[trigger] earlier[b] as int],
    ensures
        is_ascending_order(earlier.insert(p, (keys.len() - 1) as usize), keys),
{
    let newest = (keys.len() - 1) as usize;
    let before = keys.drop_last();
    let order = earlier.insert(p, newest);
    assert forall|a: int| 0 <= a < order.len() implies (#[trigger] order[a]) < keys.len() by {
        if a < p {
            assert(order[a] == earlier[a]);
        } else if a > p {
            assert(order[a] == earlier[a - 1]);
        }
    }
    assert forall|a: int, b: int| 0 <= a < b < order.len() implies comes_before(
        keys,
        #[trigger] order[a] as int,
        #[trigger] order[b] as int,
    ) by {
        if b < p {
            assert(order[a] == earlier[a] && order[b] == earlier[b]);
            assert(comes_before(before, earlier[a] as int, earlier[b] as int));
        } else if b == p {
            assert(order[a] == earlier[a]);
            assert(earlier[a] < before.len());
        } else if a < p {
            assert(order[a] == earlier[a] && order[b] == earlier[b - 1]);
            assert(comes_before(before, earlier[a] as int, earlier[b - 1] as int));
        } else if a == p {
            assert(order[b] == earlier[b - 1]);
        } else {
            assert(order[a] == earlier[a - 1] && order[b] == earlier[b - 1]);
            assert(comes_before(before, earlier[a - 1] as int, earlier[b - 1] as int));
        }
    }
}

/// Every sequence of keys that fits in memory has an ascending order, and
/// `ascending_order_of` is one.
pub proof fn lemma_ascending_order_exists(keys: Seq<i128>)
    requires
        keys.len() <= usize::MAX,
    ensures
        is_ascending_order(ascending_order_of(keys), keys),
    decreases keys.len(),
{
    if keys.len() > 0 {
        let before = keys.drop_last();
        let earlier = ascending_order_of(before);
        lemma_ascending_order_exists(before);
        let key = keys.last() as int;
        assert forall|a: int, b: int| 0 <= a < b < earlier.len() implies keys[#[trigger] earlier[a] as int]
            <= keys[#[trigger] earlier[b] as int] by {
            assert(comes_before(before, earlier[a] as int, earlier[b] as int));
        }
        assert forall|a: int| 0 <= a < earlier.len() implies (#[trigger] earlier[a]) < keys.len() by {
            assert(earlier[a] < before.len());
        }
        lemma_insertion_place(earlier, keys, key);
        lemma_insert_keeps_order(earlier, keys, insertion_place(earlier, keys, key));
    }
}

/// An ascending order names every place.
pub proof fn lemma_order_names_every_place(order: Seq<usize>, keys: Seq<i128>, place: int)
    requires
        is_ascending_order(order, keys),
        0 <= place < keys.len(),
    ensures
        exists|a: int| 0 <= a < order.len() && order[a] == place,
{
    let places = order.map_values(|p: usize| p as int);
    assert forall|a: int, b: int| 0 <= a < places.len() && 0 <= b < places.len() && a != b implies places[a]
        != places[b] by {
        if a < b {
            assert(comes_before(keys, order[a] as int, order[b] as int));
        } else {
            assert(comes_before(keys, order[b] as int, order[a] as int));
        }
    }
    places.unique_seq_to_set();
    let n = keys.len() as int;
    lemma_int_range(0, n);
    assert forall|x: int| places.to_set().contains(x) implies set_int_range(0, n).contains(x) by {
        let a = choose|a: int| 0 <= a < places.len() && places[a] == x;
        assert(order[a] < keys.len());
    }
    assert(places.to_set().subset_of(set_int_range(0, n)));
    vstd::set_lib::lemma_len_subset(places.to_set(), set_int_range(0, n));
    lemma_subset_equality(places.to_set(), set_int_range(0, n));
    assert(set_int_range(0, n).contains(place));
    assert(places.to_set().contains(place));
    let a = choose|a: int| 0 <= a < places.len() && places[a] == place;
    assert(order[a] == place);
}

proof fn lemma_orders_agree(first: Seq<usize>, second: Seq<usize>, keys: Seq<i128>, upto: int)
    requires
        is_ascending_order(first, keys),
        is_ascending_order(second, keys),
        0 <= upto <= keys.len(),
    ensures
        forall|a: int| 0 <= a < upto ==> first[a] == second[a],
    decreases upto,
{
    if upto > 0 {
        lemma_orders_agree(first, second, keys, upto - 1);
        let at = upto - 1;
        lemma_order_names_every_place(second, keys, first[at] as int);
        let b = choose|b: int| 0 <= b < second.len() && second[b] == first[at];
        lemma_order_names_every_place(first, keys, second[at] as int);
        let c = choose|c: int| 0 <= c < first.len() && first[c] == second[at];
        if b < at {
            assert(first[b] == second[b]);
            assert(comes_before(keys, first[b] as int, first[at] as int));
        } else if b > at {
            assert(comes_before(keys, second[at] as int, second[b] as int));
            if c < at {
                assert(first[c] == second[c]);
                assert(comes_before(keys, second[c] as int, second[at] as int));
            } else if c > at {
                assert(comes_before(keys, first[at] as int, first[c] as int));
            }
        }
    }
}

/// A sequence of keys has one ascending order only.
pub proof fn lemma_ascending_order_unique(first: Seq<usize>, second: Seq<usize>, keys: Seq<i128>)
    requires
        is_ascending_order(first, keys),
        is_ascending_order(second, keys),
    ensures
        first == second,
{
    lemma_orders_agree(first, second, keys, keys.len() as int);
    assert(first =~= second);
}

/// The places of `keys` in ascending order of the keys they hold. Equal keys
/// keep the order in which they stand in `keys`.
pub fn ascending_order(keys: &Vec<i128>) -> (order: Vec<usize>)
    ensures
        is_ascending_order(order@, keys@),
        order@ == ascending_order_of(keys@),
{
    let mut order: Vec<usize> = Vec::new();
    let mut m: usize = 0;
    while m < keys.len()
        invariant
            m <= keys.len(),
            is_ascending_order(order@, keys@.take(m as int)),
        decreases keys.len() - m,
    {
        let key: i128 = keys[m];
        let mut p: usize = m;
        while p > 0 && key < keys[order[p - 1]]
            invariant
                p <= m,
                m < keys.len(),
                key == keys@[m as int],
                is_ascending_order(order@, keys@.take(m as int)),
                forall|b: int| p <= b < m ==> key < keys@[#[trigger] order@[b] as int],
            decreases p,
        {
            p -= 1;
        }
        proof {
            let upto = keys@.take(m + 1);
            let earlier = order@;
            assert(upto.drop_last() == keys@.take(m as int));
            assert(upto.last() == keys@[m as int]);
            assert forall|a: int| 0 <= a < p implies upto[#[trigger] earlier[a] as int]
                <= upto.last() by {
                if a < p - 1 {
                    assert(comes_before(
                        keys@.take(m as int),
                        earlier[a] as int,
                        earlier[p - 1] as int,
                    ));
                }
            }
            lemma_insert_keeps_order(earlier, upto, p as int);
        }
        order.insert(p, m);
        m += 1;
    }
    proof {
        assert(keys@.take(m as int) == keys@);
        lemma_ascending_order_exists(keys@);
        lemma_ascending_order_unique(order@, ascending_order_of(keys@), keys@);
    }
    order
}

/// The place at which the newest key goes into the ascending order of the
/// earlier ones lies within that order.
pub proof fn lemma_insertion_place_of_order(keys: Seq<i128>)
    requires
        0 < keys.len() <= usize::MAX,
    ensures
        0 <= insertion_place(ascending_order_of(keys.drop_last()), keys, keys.last() as int)
            <= keys.len() - 1,
{
    let before = keys.drop_last();
    let earlier = ascending_order_of(before);
    lemma_ascending_order_exists(before);
    assert forall|a: int, b: int| 0 <= a < b < earlier.len() implies keys[#[trigger] earlier[a] as int]
        <= keys[#[trigger] earlier[b] as int] by {
        assert(comes_before(before, earlier[a] as int, earlier[b] as int));
    }
    assert forall|a: int| 0 <= a < earlier.len() implies (#[trigger] earlier[a]) < keys.len() by {
        assert(earlier[a] < before.len());
    }
    lemma_insertion_place(earlier, keys, keys.last() as int);
}

} // verus!
