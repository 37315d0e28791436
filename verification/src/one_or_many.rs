use vstd::prelude::*;

verus! {

/// A schema slot that is either absent, holds a single value directly, or
/// holds an ordered list of two or more values.
#[derive(Debug)]
pub enum OneOrMany<T> {
    One(T),
    Many(Vec<T>),
}

/// The sequence of values a slot holds, in order.
pub open spec fn slot_seq<T>(slot: Option<OneOrMany<T>>) -> Seq<T> {
    match slot {
        Option::None => Seq::empty(),
        Option::Some(OneOrMany::One(x)) => seq![x],
        Option::Some(OneOrMany::Many(v)) => v@,
    }
}

/// A slot is well formed when a `Many` list really holds two or more values:
/// zero values are represented by an absent slot and one value stands alone.
pub open spec fn slot_wf<T>(slot: Option<OneOrMany<T>>) -> bool {
    match slot {
        Option::Some(OneOrMany::Many(v)) => v@.len() >= 2,
        _ => true,
    }
}

/// Collapse a list of children into a schema slot: absent for zero children,
/// the single child un-wrapped for one, the ordered list itself for two or
/// more.
pub fn collapse<T>(list: Vec<T>) -> (r: Option<OneOrMany<T>>)
    ensures
        slot_wf(r),
        slot_seq(r) == list@,
        list@.len() == 0 ==> r is None,
        list@.len() == 1 ==> r == Some(OneOrMany::One(list@[0])),
        list@.len() >= 2 ==> (r matches Some(OneOrMany::Many(v)) && v@ == list@),
{
    let mut list = list;
    if list.len() == 0 {
        None
    } else if list.len() == 1 {
        let x = list.pop().unwrap();
        proof {
            assert(slot_seq(Some(OneOrMany::One(x))) =~= seq![x]);
        }
        Some(OneOrMany::One(x))
    } else {
        Some(OneOrMany::Many(list))
    }
}

/// The sequence of values a mandatory one-or-many field holds, in order.
pub open spec fn oom_seq<T>(field: OneOrMany<T>) -> Seq<T> {
    match field {
        OneOrMany::One(x) => seq![x],
        OneOrMany::Many(v) => v@,
    }
}

/// A mandatory one-or-many field is well formed when a `Many` list really
/// holds two or more values.
pub open spec fn oom_wf<T>(field: OneOrMany<T>) -> bool {
    match field {
        OneOrMany::Many(v) => v@.len() >= 2,
        _ => true,
    }
}

/// Cardinality law for one slot: under well-formedness, the slot is absent
/// exactly when it holds no values, holds the lone value directly exactly
/// when it holds one, and holds an ordered list of all values exactly when it
/// holds two or more.
pub proof fn lemma_slot_cardinality<T>(slot: Option<OneOrMany<T>>)
    requires
        slot_wf(slot),
    ensures
        (slot is None) <==> slot_seq(slot).len() == 0,
        (slot matches Some(OneOrMany::One(x)) ==> slot_seq(slot) =~= seq![x]),
        (slot matches Some(OneOrMany::One(x)) <==> slot_seq(slot).len() == 1),
        (slot matches Some(OneOrMany::Many(v)) <==> slot_seq(slot).len() >= 2),
        (slot matches Some(OneOrMany::Many(v)) ==> v@ == slot_seq(slot)),
{
}

} // verus!
