//! Walks over a chain: finding a value by its name, and collecting the
//! status reports of all values.

use vstd::prelude::*;
use vstd::string::*;
use crate::devices::SmartDeviceAccess;
use crate::dll::{head_inserted, lemma_head_inserted_order, Dll, ANCHOR};

verus! {

/// Whether every value of `items` is in order.
pub open spec fn all_valid<T: SmartDeviceAccess>(items: Seq<T>) -> bool {
    forall|i: int| 0 <= i < items.len() ==> (#[trigger] items[i]).valid()
}

/// Whether `i` is the first position of `items` that holds a value called
/// `name`.
pub open spec fn is_first_named<T: SmartDeviceAccess>(
    items: Seq<T>,
    name: Seq<char>,
    i: int,
) -> bool {
    &&& 0 <= i < items.len()
    &&& items[i].name_text() == name
    &&& forall|j: int| 0 <= j < i ==> (#[trigger] items[j]).name_text() != name
}

/// Whether no value of `items` is called `name`.
pub open spec fn none_named<T: SmartDeviceAccess>(items: Seq<T>, name: Seq<char>) -> bool {
    forall|j: int| 0 <= j < items.len() ==> (#[trigger] items[j]).name_text() != name
}

/// The first position of `items` that holds a value called `name`.
pub open spec fn first_named<T: SmartDeviceAccess>(items: Seq<T>, name: Seq<char>) -> Option<int>
    decreases items.len(),
{
    if items.len() == 0 {
        None
    } else if items[0].name_text() == name {
        Some(0)
    } else {
        match first_named(items.drop_first(), name) {
            Some(i) => Some(i + 1),
            None => None,
        }
    }
}

/// The status reports of `items` in order, each followed by the separator.
pub open spec fn joined_status<T: SmartDeviceAccess>(items: Seq<T>, sep: Seq<char>) -> Seq<char>
    decreases items.len(),
{
    if items.len() == 0 {
        Seq::empty()
    } else {
        joined_status(items.drop_last(), sep) + items.last().status_text() + sep
    }
}

/// A search by name finds the first position that holds a value of that
/// name, and finds nothing exactly if no value has that name.
pub proof fn lemma_first_named<T: SmartDeviceAccess>(items: Seq<T>, name: Seq<char>)
    ensures
        match first_named(items, name) {
            Some(i) => is_first_named(items, name, i),
            None => none_named(items, name),
        },
    decreases items.len(),
{
    if items.len() > 0 && items[0].name_text() != name {
        let rest = items.drop_first();
        lemma_first_named(rest, name);
        match first_named(rest, name) {
            Some(i) => {
                assert(items[i + 1] == rest[i]);
                assert forall|j: int| 0 <= j < i + 1 implies (#[trigger] items[j]).name_text()
                    != name by {
                    if j > 0 {
                        assert(items[j] == rest[j - 1]);
                    }
                }
            },
            None => {
                assert forall|j: int| 0 <= j < items.len() implies (#[trigger] items[j]).name_text()
                    != name by {
                    if j > 0 {
                        assert(items[j] == rest[j - 1]);
                    }
                }
            },
        }
    }
}

/// The first position that holds a value of a name is what a search by
/// that name finds.
pub proof fn lemma_first_named_is<T: SmartDeviceAccess>(items: Seq<T>, name: Seq<char>, i: int)
    requires
        is_first_named(items, name, i),
    ensures
        first_named(items, name) == Some(i),
{
    lemma_first_named(items, name);
}

/// Where no value has the name, a search by that name finds nothing.
pub proof fn lemma_none_named<T: SmartDeviceAccess>(items: Seq<T>, name: Seq<char>)
    requires
        none_named(items, name),
    ensures
        first_named(items, name) is None,
{
    lemma_first_named(items, name);
}

/// A value whose name no value of `items` has is found under its name at the
/// place where it was put in, whatever that place is.
pub proof fn lemma_find_inserted<T: SmartDeviceAccess>(items: Seq<T>, p: int, item: T)
    requires
        0 <= p <= items.len(),
        none_named(items, item.name_text()),
    ensures
        first_named(items.insert(p, item), item.name_text()) == Some(p),
        items.insert(p, item)[p] == item,
{
    let after = items.insert(p, item);
    assert forall|j: int| 0 <= j < p implies (#[trigger] after[j]).name_text()
        != item.name_text() by {
        assert(after[j] == items[j]);
    }
    lemma_first_named_is(after, item.name_text(), p);
}

/// A value put in at the head is found under its name, also where older
/// values have the same name.
pub proof fn lemma_find_head<T: SmartDeviceAccess>(items: Seq<T>, item: T)
    ensures
        first_named(seq![item] + items, item.name_text()) == Some(0int),
        (seq![item] + items)[0] == item,
{
}

/// The report on a chain starts with the status of the value at its head.
pub proof fn lemma_joined_status_head<T: SmartDeviceAccess>(item: T, items: Seq<T>, sep: Seq<char>)
    ensures
        joined_status(seq![item] + items, sep) == item.status_text() + sep + joined_status(
            items,
            sep,
        ),
    decreases items.len(),
{
    let all = seq![item] + items;
    if items.len() == 0 {
        assert(all.drop_last() =~= Seq::<T>::empty());
        assert(joined_status(all.drop_last(), sep) =~= Seq::<char>::empty());
    } else {
        assert(all.drop_last() =~= seq![item] + items.drop_last());
        assert(all.last() == items.last());
        lemma_joined_status_head(item, items.drop_last(), sep);
    }
    assert(joined_status(all, sep) =~= item.status_text() + sep + joined_status(items, sep));
}

/// Of three values inserted at the head of an empty chain, first `a`, then
/// `b`, then `c`, the report names `c` first, then `b`, then `a`.
pub proof fn lemma_aggregation_order<T: SmartDeviceAccess>(a: T, b: T, c: T, sep: Seq<char>)
    ensures
        head_inserted(seq![a, b, c]) == seq![c, b, a],
        joined_status(head_inserted(seq![a, b, c]), sep) == c.status_text() + sep
            + b.status_text() + sep + a.status_text() + sep,
{
    let items = seq![a, b, c];
    lemma_head_inserted_order(items, 0);
    lemma_head_inserted_order(items, 1);
    lemma_head_inserted_order(items, 2);
    assert(head_inserted(items) =~= seq![c, b, a]);
    assert(seq![c, b, a] =~= seq![c] + seq![b, a]);
    assert(seq![b, a] =~= seq![b] + seq![a]);
    assert(seq![a] =~= seq![a] + Seq::<T>::empty());
    lemma_joined_status_head(c, seq![b, a], sep);
    lemma_joined_status_head(b, seq![a], sep);
    lemma_joined_status_head(a, Seq::<T>::empty(), sep);
    assert(joined_status(Seq::<T>::empty(), sep) =~= Seq::<char>::empty());
    assert(joined_status(seq![c, b, a], sep) =~= c.status_text() + sep + b.status_text() + sep
        + a.status_text() + sep);
}

/// Finds the first node of the chain, in forward order, whose value is
/// called `target_name`, and returns its handle.
pub fn find_by_name<T: SmartDeviceAccess>(chain: &Dll<T>, target_name: &str) -> (found: Option<
    usize,
>)
    requires
        chain.wf(),
        all_valid(chain@),
    ensures
        match found {
            Some(h) => chain.is_member(h) && first_named(chain@, target_name@) == Some(
                chain.position(h),
            ),
            None => first_named(chain@, target_name@) is None,
        },
{
    proof {
        chain.lemma_handles();
    }
    let target: String = target_name.to_owned();
    let ghost mut k: int = 0;
    let mut sel: usize = chain.next(ANCHOR);
    while sel != ANCHOR
        invariant
            chain.wf(),
            all_valid(chain@),
            chain.handles().len() == chain@.len(),
            target@ == target_name@,
            0 <= k <= chain@.len(),
            sel == chain.handle_at(k),
            forall|j: int| 0 <= j < k ==> (#[trigger] chain@[j]).name_text() != target_name@,
        decreases chain@.len() - k,
    {
        proof {
            chain.lemma_position(k);
        }
        let name: String = chain.get(sel).name();
        if name == target {
            proof {
                lemma_first_named_is(chain@, target_name@, k);
            }
            return Some(sel);
        }
        sel = chain.next(sel);
        proof {
            k = k + 1;
        }
    }
    proof {
        if k < chain@.len() {
            chain.lemma_position(k);
        }
        lemma_none_named(chain@, target_name@);
    }
    None
}

/// Walks the chain once in forward order and joins the status reports of
/// its values, each followed by the separator.
pub fn aggregate_status<T: SmartDeviceAccess>(chain: &Dll<T>, separator: &str) -> (report: String)
    requires
        chain.wf(),
        all_valid(chain@),
    ensures
        report@ == joined_status(chain@, separator@),
{
    proof {
        chain.lemma_handles();
    }
    let mut report: String = String::new();
    let ghost mut k: int = 0;
    let mut sel: usize = chain.next(ANCHOR);
    while sel != ANCHOR
        invariant
            chain.wf(),
            all_valid(chain@),
            chain.handles().len() == chain@.len(),
            0 <= k <= chain@.len(),
            sel == chain.handle_at(k),
            report@ == joined_status(chain@.take(k), separator@),
        decreases chain@.len() - k,
    {
        proof {
            chain.lemma_position(k);
        }
        let status: String = chain.get(sel).status();
        report.append(status.as_str());
        report.append(separator);
        sel = chain.next(sel);
        proof {
            assert(chain@.take(k + 1).drop_last() =~= chain@.take(k));
            assert(chain@.take(k + 1).last() == chain@[k]);
            k = k + 1;
        }
    }
    proof {
        if k < chain@.len() {
            chain.lemma_position(k);
        }
        assert(chain@.take(k) =~= chain@);
    }
    report
}

} // verus!
