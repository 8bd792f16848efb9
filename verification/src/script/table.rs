//! An insertion-ordered table from names to numbers, kept in an `indexmap::IndexMap`.

use indexmap::IndexMap;
use vstd::prelude::*;

verus! {

/// `indexmap::IndexMap`, which keeps its entries in the order of their insertion.
#[verifier::external_type_specification]
#[verifier::external_body]
#[verifier::reject_recursive_types(K)]
#[verifier::reject_recursive_types(V)]
#[verifier::reject_recursive_types(S)]
pub struct ExIndexMap<K, V, S>(IndexMap<K, V, S>);

/// The entries of a table, in the order in which their names were first inserted.
pub uninterp spec fn entries(table: IndexMap<String, u64>) -> Seq<(Seq<char>, u64)>;

/// The position of the first entry with the given name, or the length of the table
/// where it has none.
pub open spec fn position(table: Seq<(Seq<char>, u64)>, name: Seq<char>) -> nat
    decreases table.len(),
{
    if table.len() == 0 || table.first().0 == name {
        0
    } else {
        1 + position(table.drop_first(), name)
    }
}

/// The number that the table holds for a name.
pub open spec fn lookup(table: Seq<(Seq<char>, u64)>, name: Seq<char>) -> Option<u64> {
    if position(table, name) < table.len() {
        Some(table[position(table, name) as int].1)
    } else {
        None
    }
}

/// The table after an insertion: a name that it holds keeps its place and gets the new
/// number, a new name goes to the end.
pub open spec fn inserted(table: Seq<(Seq<char>, u64)>, name: Seq<char>, number: u64) -> Seq<
    (Seq<char>, u64),
> {
    if position(table, name) < table.len() {
        table.update(position(table, name) as int, (name, number))
    } else {
        table.push((name, number))
    }
}

/// `IndexMap::new`: a table without entries.
#[verifier::external_body]
pub(crate) fn new_table() -> (table: IndexMap<String, u64>)
    ensures
        entries(table) == Seq::<(Seq<char>, u64)>::empty(),
{
    IndexMap::new()
}

/// `IndexMap::insert`: where the table holds an equal name, that entry keeps its place
/// and gets the new number; otherwise the pair becomes the last entry.
#[verifier::external_body]
pub(crate) fn insert(table: &mut IndexMap<String, u64>, name: String, number: u64)
    ensures
        entries(*final(table)) == inserted(entries(*old(table)), name@, number),
{
    table.insert(name, number);
}

/// `IndexMap::get`: the number of the entry with an equal name, if there is one.
#[verifier::external_body]
pub(crate) fn get(table: &IndexMap<String, u64>, name: &str) -> (number: Option<u64>)
    ensures
        number == lookup(entries(*table), name@),
{
    match table.get(name) {
        Some(number) => Some(*number),
        None => None,
    }
}

/// `IndexMap::len`: the number of entries.
#[verifier::external_body]
pub(crate) fn len(table: &IndexMap<String, u64>) -> (length: usize)
    ensures
        length == entries(*table).len(),
{
    table.len()
}

/// `IndexMap::get_index`: the entry at a position in insertion order, if the table has
/// that many entries.
#[verifier::external_body]
pub(crate) fn get_index(table: &IndexMap<String, u64>, index: usize) -> (entry: Option<
    (String, u64),
>)
    ensures
        match entry {
            Some(pair) => index < entries(*table).len() && pair.0@ == entries(
                *table,
            )[index as int].0 && pair.1 == entries(*table)[index as int].1,
            None => index >= entries(*table).len(),
        },
{
    match table.get_index(index) {
        Some((name, number)) => Some((name.clone(), *number)),
        None => None,
    }
}

} // verus!
