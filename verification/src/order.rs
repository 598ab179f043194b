//! The order in which a line's attributes are read: by rising position, and
//! among attributes at one position in the order they were given.

use vstd::prelude::*;
use crate::markup::Attribute;

verus! {

/// `sorted` with `attribute` put behind the last entry that does not start
/// after it.
pub open spec fn insert_by_position(sorted: Seq<Attribute>, attribute: Attribute) -> Seq<Attribute>
    decreases sorted.len(),
{
    if sorted.len() == 0 {
        seq![attribute]
    } else if sorted.last().position <= attribute.position {
        sorted.push(attribute)
    } else {
        insert_by_position(sorted.drop_last(), attribute).push(sorted.last())
    }
}

/// The attributes by rising position; attributes at the same position keep
/// their order.
pub open spec fn sorted_by_position(attributes: Seq<Attribute>) -> Seq<Attribute>
    decreases attributes.len(),
{
    if attributes.len() == 0 {
        Seq::empty()
    } else {
        insert_by_position(sorted_by_position(attributes.drop_last()), attributes.last())
    }
}

/// Whether positions never fall from one entry to the next.
pub open spec fn ordered_by_position(attributes: Seq<Attribute>) -> bool {
    forall|i: int, j: int|
        0 <= i <= j < attributes.len() ==> attributes[i].position <= attributes[j].position
}

/// The attributes that the indices in `order` pick, in that order.
pub open spec fn picked(attributes: Seq<Attribute>, order: Seq<usize>) -> Seq<Attribute> {
    Seq::new(order.len(), |k: int| attributes[order[k] as int])
}

/// Inserting by position is inserting at the index behind which every entry
/// starts later and before which the nearest entry does not.
pub proof fn lemma_insert_at(sorted: Seq<Attribute>, attribute: Attribute, at: int)
    requires
        0 <= at <= sorted.len(),
        forall|i: int| at <= i < sorted.len() ==> sorted[i].position > attribute.position,
        at > 0 ==> sorted[at - 1].position <= attribute.position,
    ensures
        insert_by_position(sorted, attribute) == sorted.insert(at, attribute),
    decreases sorted.len(),
{
    if sorted.len() == 0 {
        assert(sorted.insert(at, attribute) =~= seq![attribute]);
    } else if at == sorted.len() {
        assert(sorted.insert(at, attribute) =~= sorted.push(attribute));
    } else {
        lemma_insert_at(sorted.drop_last(), attribute, at);
        assert(sorted.insert(at, attribute) =~= sorted.drop_last().insert(at, attribute).push(
            sorted.last(),
        ));
    }
}

/// Inserting keeps an ordered sequence ordered, adds one entry and loses none.
pub proof fn lemma_insert_properties(sorted: Seq<Attribute>, attribute: Attribute)
    requires
        ordered_by_position(sorted),
    ensures
        ordered_by_position(insert_by_position(sorted, attribute)),
        insert_by_position(sorted, attribute).len() == sorted.len() + 1,
        insert_by_position(sorted, attribute).to_multiset() == sorted.to_multiset().insert(
            attribute,
        ),
    decreases sorted.len(),
{
    broadcast use vstd::seq_lib::group_to_multiset_ensures;

    let inserted = insert_by_position(sorted, attribute);
    if sorted.len() == 0 {
        assert(seq![attribute] =~= Seq::<Attribute>::empty().push(attribute));
        assert(sorted =~= Seq::<Attribute>::empty());
    } else if sorted.last().position <= attribute.position {
    } else {
        let front = sorted.drop_last();
        lemma_insert_properties(front, attribute);
        let inner = insert_by_position(front, attribute);
        assert(sorted =~= front.push(sorted.last()));
        assert(inner.to_multiset().insert(sorted.last()) =~= sorted.to_multiset().insert(
            attribute,
        ));
        assert forall|i: int, j: int| 0 <= i <= j < inserted.len() implies inserted[i].position
            <= inserted[j].position by {
            if j == inserted.len() - 1 && i < j {
                // every entry of `inner` is the new attribute or an entry of `front`
                assert(inner.to_multiset().count(inner[i]) > 0);
                if inner[i] != attribute {
                    assert(front.to_multiset().count(inner[i]) > 0);
                    assert(front.contains(inner[i]));
                    let k = choose|k: int| 0 <= k < front.len() && front[k] == inner[i];
                    assert(sorted[k].position <= sorted[sorted.len() - 1].position);
                }
            }
        }
    }
}

/// Sorting by position orders the attributes and neither adds nor loses one.
pub proof fn lemma_sorted_properties(attributes: Seq<Attribute>)
    ensures
        ordered_by_position(sorted_by_position(attributes)),
        sorted_by_position(attributes).len() == attributes.len(),
        sorted_by_position(attributes).to_multiset() == attributes.to_multiset(),
    decreases attributes.len(),
{
    broadcast use vstd::seq_lib::group_to_multiset_ensures;

    if attributes.len() == 0 {
        assert(attributes =~= Seq::<Attribute>::empty());
    } else {
        lemma_sorted_properties(attributes.drop_last());
        lemma_insert_properties(sorted_by_position(attributes.drop_last()), attributes.last());
        assert(attributes =~= attributes.drop_last().push(attributes.last()));
    }
}

/// Attributes that are given in order are read in the order given.
pub proof fn lemma_sorted_keeps_ordered(attributes: Seq<Attribute>)
    requires
        ordered_by_position(attributes),
    ensures
        sorted_by_position(attributes) == attributes,
    decreases attributes.len(),
{
    if attributes.len() > 0 {
        let front = attributes.drop_last();
        lemma_sorted_keeps_ordered(front);
        lemma_insert_at(front, attributes.last(), front.len() as int);
        assert(front.insert(front.len() as int, attributes.last()) =~= attributes);
    }
}

/// Every attribute that sorting hands out is one of those that went in.
pub proof fn lemma_sorted_from_input(attributes: Seq<Attribute>, k: int)
    requires
        0 <= k < sorted_by_position(attributes).len(),
    ensures
        attributes.contains(sorted_by_position(attributes)[k]),
{
    broadcast use vstd::seq_lib::group_to_multiset_ensures;

    lemma_sorted_properties(attributes);
    let sorted = sorted_by_position(attributes);
    assert(sorted.to_multiset().count(sorted[k]) > 0);
}

/// The indices of the attributes in the order in which they are read.
pub fn position_order(attributes: &Vec<Attribute>) -> (order: Vec<usize>)
    ensures
        order@.len() == attributes@.len(),
        forall|k: int| 0 <= k < order@.len() ==> order@[k] < attributes@.len(),
        picked(attributes@, order@) == sorted_by_position(attributes@),
{
    let mut order: Vec<usize> = Vec::new();
    let mut next: usize = 0;
    proof {
        assert(picked(attributes@, order@) =~= sorted_by_position(attributes@.take(0)));
    }
    while next < attributes.len()
        invariant
            next <= attributes@.len(),
            order@.len() == next,
            forall|k: int| 0 <= k < order@.len() ==> order@[k] < next,
            picked(attributes@, order@) == sorted_by_position(attributes@.take(next as int)),
        decreases attributes.len() - next,
    {
        let position = attributes[next].position;
        let mut at: usize = order.len();
        while at > 0 && attributes[order[at - 1]].position > position
            invariant
                at <= order@.len(),
                order@.len() == next,
                next < attributes@.len(),
                forall|k: int| 0 <= k < order@.len() ==> order@[k] < next,
                forall|k: int|
                    at <= k < order@.len() ==> attributes@[order@[k] as int].position > position,
            decreases at,
        {
            at -= 1;
        }
        proof {
            let before = picked(attributes@, order@);
            let after = picked(attributes@, order@.insert(at as int, next));
            lemma_insert_at(before, attributes@[next as int], at as int);
            assert(after =~= before.insert(at as int, attributes@[next as int]));
            assert(attributes@.take(next + 1).drop_last() =~= attributes@.take(next as int));
        }
        order.insert(at, next);
        next += 1;
    }
    proof {
        assert(attributes@.take(next as int) =~= attributes@);
    }
    order
}

} // verus!
