use vstd::prelude::*;

verus! {

/// The view of each element of a sequence.
pub open spec fn views<T: View>(items: Seq<T>) -> Seq<T::V> {
    items.map_values(|item: T| item@)
}

/// The view of an optional value.
pub open spec fn optional_view<T: View>(item: Option<T>) -> Option<T::V> {
    match item {
        Some(value) => Some(value@),
        None => None,
    }
}

/// The view of each optional value of a sequence.
pub open spec fn optional_views<T: View>(items: Seq<Option<T>>) -> Seq<Option<T::V>> {
    items.map_values(|item: Option<T>| optional_view(item))
}

} // verus!
