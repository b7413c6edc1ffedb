//! Data-shape analysis used by the routing profiles.
use crate::json::{
    is_container, items_model, lemma_array_model, lemma_object_model, member_keys, members_model,
    wf_json, Json, JsonValue,
};
use vstd::prelude::*;

verus! {

/// A count that does not fit in `usize` is held as `usize::MAX`.
pub open spec fn cap(n: int) -> usize {
    if n > usize::MAX {
        usize::MAX
    } else {
        n as usize
    }
}

/// An exact fraction `numerator / denominator`, standing for the `f32` ratio
/// that the routing thresholds are compared against.
#[derive(Debug, Clone, Copy, PartialEq, Eq)]
pub struct Ratio {
    pub numerator: u128,
    pub denominator: u128,
}

/// Summary of the parsed input used to select an output format.
///
/// `sparsity` is the share of empty cells among all cells of a table of
/// object rows, and `uniformity` the share of rows whose key set is that of
/// the first row; both are exact fractions. Counts too large for `usize`
/// are held as `usize::MAX`.
#[derive(Debug, Clone, Copy, PartialEq, Eq)]
pub struct DataAnalysis {
    pub depth: usize,
    pub row_count: usize,
    pub field_count: usize,
    pub sparsity: Ratio,
    pub uniformity: Ratio,
    pub scalar_field_count: usize,
    pub nested_field_count: usize,
    pub nested_value_field_count: usize,
    pub has_nested_arrays: bool,
    pub is_uniform_object_array: bool,
    pub is_flat_object_array: bool,
    pub is_deeply_nested: bool,
}

/// The greater of two naturals.
pub open spec fn max_nat(a: nat, b: nat) -> nat {
    if a >= b {
        a
    } else {
        b
    }
}

/// Nesting depth: 0 for a scalar, one more than the deepest child for an
/// array or an object (an empty one has depth 1).
pub open spec fn depth(j: Json) -> nat
    decreases j,
{
    match j {
        Json::Array(items) => 1 + items_depth(items),
        Json::Object(members) => 1 + members_depth(members),
        _ => 0,
    }
}

/// The greatest depth among the items (0 for none).
pub open spec fn items_depth(items: Seq<Json>) -> nat
    decreases items,
{
    if items.len() == 0 {
        0
    } else {
        max_nat(items_depth(items.drop_last()), depth(items.last()))
    }
}

/// The greatest depth among the members' values (0 for none).
pub open spec fn members_depth(members: Seq<(Seq<char>, Json)>) -> nat
    decreases members,
{
    if members.len() == 0 {
        0
    } else {
        max_nat(members_depth(members.drop_last()), depth(members.last().1))
    }
}

/// Whether a non-empty array stands inside an array: `inside` says whether
/// `j` is itself (through objects only) inside an array.
pub open spec fn nested_arrays(j: Json, inside: bool) -> bool
    decreases j,
{
    match j {
        Json::Array(items) => (inside && items.len() > 0) || items_nested_arrays(items),
        Json::Object(members) => members_nested_arrays(members, inside),
        _ => false,
    }
}

/// Some item, taken as inside an array, holds a nested array.
pub open spec fn items_nested_arrays(items: Seq<Json>) -> bool
    decreases items,
{
    if items.len() == 0 {
        false
    } else {
        items_nested_arrays(items.drop_last()) || nested_arrays(items.last(), true)
    }
}

/// Some member's value holds a nested array.
pub open spec fn members_nested_arrays(members: Seq<(Seq<char>, Json)>, inside: bool) -> bool
    decreases members,
{
    if members.len() == 0 {
        false
    } else {
        members_nested_arrays(members.drop_last(), inside) || nested_arrays(
            members.last().1,
            inside,
        )
    }
}

/// The number of scalar values in the document.
pub open spec fn leaf_count(j: Json) -> nat
    decreases j,
{
    match j {
        Json::Array(items) => items_leaf_count(items),
        Json::Object(members) => members_leaf_count(members),
        _ => 1,
    }
}

pub open spec fn items_leaf_count(items: Seq<Json>) -> nat
    decreases items,
{
    if items.len() == 0 {
        0
    } else {
        items_leaf_count(items.drop_last()) + leaf_count(items.last())
    }
}

pub open spec fn members_leaf_count(members: Seq<(Seq<char>, Json)>) -> nat
    decreases members,
{
    if members.len() == 0 {
        0
    } else {
        members_leaf_count(members.drop_last()) + leaf_count(members.last().1)
    }
}

/// The set of an object row's keys.
pub open spec fn row_keys(row: Json) -> Set<Seq<char>> {
    member_keys(row->Object_0).to_set()
}

/// Every row is an object.
pub open spec fn all_objects(rows: Seq<Json>) -> bool {
    forall|i: int| 0 <= i < rows.len() ==> #[trigger] rows[i] is Object
}

/// Every key of every row.
pub open spec fn keys_union(rows: Seq<Json>) -> Set<Seq<char>>
    decreases rows.len(),
{
    if rows.len() == 0 {
        Set::empty()
    } else {
        keys_union(rows.drop_last()).union(row_keys(rows.last()))
    }
}

/// The cells that the rows leave empty in a table of `total` columns.
pub open spec fn empty_cells(rows: Seq<Json>, total: int) -> int
    decreases rows.len(),
{
    if rows.len() == 0 {
        0
    } else {
        empty_cells(rows.drop_last(), total) + (total - row_keys(rows.last()).len())
    }
}

/// The number of rows whose key set is `keys`.
pub open spec fn rows_with_keys(rows: Seq<Json>, keys: Set<Seq<char>>) -> nat
    decreases rows.len(),
{
    if rows.len() == 0 {
        0
    } else {
        rows_with_keys(rows.drop_last(), keys) + if row_keys(rows.last()) == keys {
            1nat
        } else {
            0nat
        }
    }
}

/// The number of members whose value is a scalar.
pub open spec fn scalar_members(members: Seq<(Seq<char>, Json)>) -> nat
    decreases members.len(),
{
    if members.len() == 0 {
        0
    } else {
        scalar_members(members.drop_last()) + if is_container(members.last().1) {
            0nat
        } else {
            1nat
        }
    }
}

/// The number of members whose value is an array or an object.
pub open spec fn nested_members(members: Seq<(Seq<char>, Json)>) -> nat
    decreases members.len(),
{
    if members.len() == 0 {
        0
    } else {
        nested_members(members.drop_last()) + if is_container(members.last().1) {
            1nat
        } else {
            0nat
        }
    }
}

/// The scalar values inside the members whose value is an array or an object.
pub open spec fn nested_member_leaves(members: Seq<(Seq<char>, Json)>) -> nat
    decreases members.len(),
{
    if members.len() == 0 {
        0
    } else {
        nested_member_leaves(members.drop_last()) + if is_container(members.last().1) {
            leaf_count(members.last().1)
        } else {
            0nat
        }
    }
}

/// The scalar-valued members over all the rows.
pub open spec fn rows_scalar(rows: Seq<Json>) -> nat
    decreases rows.len(),
{
    if rows.len() == 0 {
        0
    } else {
        rows_scalar(rows.drop_last()) + scalar_members(rows.last()->Object_0)
    }
}

/// The array- or object-valued members over all the rows.
pub open spec fn rows_nested(rows: Seq<Json>) -> nat
    decreases rows.len(),
{
    if rows.len() == 0 {
        0
    } else {
        rows_nested(rows.drop_last()) + nested_members(rows.last()->Object_0)
    }
}

/// The scalar values inside array- or object-valued members over all the rows.
pub open spec fn rows_nested_leaves(rows: Seq<Json>) -> nat
    decreases rows.len(),
{
    if rows.len() == 0 {
        0
    } else {
        rows_nested_leaves(rows.drop_last()) + nested_member_leaves(rows.last()->Object_0)
    }
}

/// What the analysis says of the top-level array of object rows.
pub struct TableShape {
    pub row_count: usize,
    pub field_count: usize,
    pub sparsity: Ratio,
    pub uniformity: Ratio,
    pub scalar_field_count: usize,
    pub nested_field_count: usize,
    pub nested_value_field_count: usize,
    pub is_uniform_object_array: bool,
    pub is_flat_object_array: bool,
}

pub open spec fn ratio(n: int, d: int) -> Ratio {
    Ratio { numerator: n as u128, denominator: d as u128 }
}

/// The table facts: zeros for anything but an array; for an empty array a
/// uniformity of 1; for rows that are not all objects a sparsity of 1; for
/// object rows without any key uniform, flat and a uniformity of 1; else the
/// counts over the rows.
pub open spec fn table_shape(j: Json) -> TableShape {
    let none = TableShape {
        row_count: 0,
        field_count: 0,
        sparsity: ratio(0, 1),
        uniformity: ratio(0, 1),
        scalar_field_count: 0,
        nested_field_count: 0,
        nested_value_field_count: 0,
        is_uniform_object_array: false,
        is_flat_object_array: false,
    };
    if !(j is Array) {
        none
    } else {
        let rows = j->Array_0;
        let n = rows.len();
        if n == 0 {
            TableShape { uniformity: ratio(1, 1), ..none }
        } else if !all_objects(rows) {
            TableShape { row_count: n as usize, sparsity: ratio(1, 1), ..none }
        } else {
            let total = keys_union(rows).len();
            if total == 0 {
                TableShape {
                    row_count: n as usize,
                    uniformity: ratio(1, 1),
                    is_uniform_object_array: true,
                    is_flat_object_array: true,
                    ..none
                }
            } else {
                let first = row_keys(rows[0]);
                let uniform = rows_with_keys(rows, first) == n;
                let nested = rows_nested(rows);
                TableShape {
                    row_count: n as usize,
                    field_count: total as usize,
                    sparsity: ratio(empty_cells(rows, total as int), (n * total) as int),
                    uniformity: ratio(rows_with_keys(rows, first) as int, n as int),
                    scalar_field_count: cap(rows_scalar(rows) as int),
                    nested_field_count: cap(nested as int),
                    nested_value_field_count: cap(rows_nested_leaves(rows) as int),
                    is_uniform_object_array: uniform,
                    is_flat_object_array: uniform && nested == 0,
                }
            }
        }
    }
}

/// The analysis of a document.
pub open spec fn analysis_of(j: Json) -> DataAnalysis {
    let t = table_shape(j);
    DataAnalysis {
        depth: cap(depth(j) as int),
        row_count: t.row_count,
        field_count: t.field_count,
        sparsity: t.sparsity,
        uniformity: t.uniformity,
        scalar_field_count: t.scalar_field_count,
        nested_field_count: t.nested_field_count,
        nested_value_field_count: t.nested_value_field_count,
        has_nested_arrays: nested_arrays(j, false),
        is_uniform_object_array: t.is_uniform_object_array,
        is_flat_object_array: t.is_flat_object_array,
        is_deeply_nested: depth(j) >= 5,
    }
}


/// `a + b`, held as `usize::MAX` where it does not fit.
fn add_capped(a: usize, b: usize) -> (r: usize)
    ensures
        r == cap(a + b),
{
    if a > usize::MAX - b {
        usize::MAX
    } else {
        a + b
    }
}

proof fn lemma_cap_add(x: int, y: int)
    requires
        0 <= x,
        0 <= y,
    ensures
        cap(x + y) == cap(cap(x) + cap(y)),
{
}

proof fn lemma_take_step<A>(s: Seq<A>, i: int)
    requires
        0 <= i < s.len(),
    ensures
        s.take(i + 1).drop_last() == s.take(i),
        s.take(i + 1).last() == s[i],
        s.take(i + 1).len() == i + 1,
{
    assert(s.take(i + 1).drop_last() =~= s.take(i));
}

proof fn lemma_take_all<A>(s: Seq<A>)
    ensures
        s.take(s.len() as int) == s,
{
    assert(s.take(s.len() as int) =~= s);
}

/// The members of an object row.
fn object_members(row: &JsonValue) -> (r: &Vec<(String, JsonValue)>)
    requires
        row@ is Object,
    ensures
        *row == JsonValue::Object(*r),
        row@ == Json::Object(members_model(r@)),
{
    match row {
        JsonValue::Object(members) => {
            proof {
                lemma_object_model(*members);
            }
            members
        },
        _ => vstd::pervasive::unreached(),
    }
}

/// Whether the value is an array or an object.
fn is_nested(value: &JsonValue) -> (r: bool)
    ensures
        r == is_container(value@),
{
    match value {
        JsonValue::Array(items) => {
            proof {
                lemma_array_model(*items);
            }
            true
        },
        JsonValue::Object(members) => {
            proof {
                lemma_object_model(*members);
            }
            true
        },
        _ => false,
    }
}

/// The nesting depth of the document.
fn max_depth(value: &JsonValue) -> (r: usize)
    ensures
        r == cap(depth(value@) as int),
    decreases value@,
{
    match value {
        JsonValue::Array(items) => {
            proof {
                lemma_array_model(*items);
            }
            let ghost kids = items_model(items@);
            let mut m: usize = 0;
            let mut i: usize = 0;
            while i < items.len()
                invariant
                    i <= items@.len(),
                    kids == items_model(items@),
                    value@ == Json::Array(kids),
                    m == cap(items_depth(kids.take(i as int)) as int),
                decreases items@.len() - i,
            {
                proof {
                    let whole = value@;
                    assert(decreases_to!(whole => whole->Array_0));
                    assert(decreases_to!(whole->Array_0 => whole->Array_0[i as int]));
                    lemma_take_step(kids, i as int);
                }
                let d = max_depth(&items[i]);
                if d > m {
                    m = d;
                }
                i = i + 1;
            }
            proof {
                lemma_take_all(kids);
            }
            if m == usize::MAX {
                usize::MAX
            } else {
                m + 1
            }
        },
        JsonValue::Object(members) => {
            proof {
                lemma_object_model(*members);
            }
            let ghost kids = members_model(members@);
            let mut m: usize = 0;
            let mut i: usize = 0;
            while i < members.len()
                invariant
                    i <= members@.len(),
                    kids == members_model(members@),
                    value@ == Json::Object(kids),
                    m == cap(members_depth(kids.take(i as int)) as int),
                decreases members@.len() - i,
            {
                proof {
                    let whole = value@;
                    assert(decreases_to!(whole => whole->Object_0));
                    assert(decreases_to!(whole->Object_0 => whole->Object_0[i as int]));
                    assert(decreases_to!(whole->Object_0[i as int] => whole->Object_0[i as int].1));
                    lemma_take_step(kids, i as int);
                }
                let d = max_depth(&members[i].1);
                if d > m {
                    m = d;
                }
                i = i + 1;
            }
            proof {
                lemma_take_all(kids);
            }
            if m == usize::MAX {
                usize::MAX
            } else {
                m + 1
            }
        },
        _ => 0,
    }
}

/// Whether a non-empty array stands inside an array.
fn has_nested_arrays(value: &JsonValue, inside_array: bool) -> (r: bool)
    ensures
        r == nested_arrays(value@, inside_array),
    decreases value@,
{
    match value {
        JsonValue::Array(items) => {
            proof {
                lemma_array_model(*items);
            }
            let ghost kids = items_model(items@);
            if inside_array && items.len() > 0 {
                return true;
            }
            let mut i: usize = 0;
            while i < items.len()
                invariant
                    i <= items@.len(),
                    kids == items_model(items@),
                    value@ == Json::Array(kids),
                    !items_nested_arrays(kids.take(i as int)),
                decreases items@.len() - i,
            {
                proof {
                    let whole = value@;
                    assert(decreases_to!(whole => whole->Array_0));
                    assert(decreases_to!(whole->Array_0 => whole->Array_0[i as int]));
                    lemma_take_step(kids, i as int);
                }
                if has_nested_arrays(&items[i], true) {
                    proof {
                        lemma_items_nested_prefix(kids, i as int + 1);
                    }
                    return true;
                }
                i = i + 1;
            }
            proof {
                lemma_take_all(kids);
            }
            false
        },
        JsonValue::Object(members) => {
            proof {
                lemma_object_model(*members);
            }
            let ghost kids = members_model(members@);
            let mut i: usize = 0;
            while i < members.len()
                invariant
                    i <= members@.len(),
                    kids == members_model(members@),
                    value@ == Json::Object(kids),
                    !members_nested_arrays(kids.take(i as int), inside_array),
                decreases members@.len() - i,
            {
                proof {
                    let whole = value@;
                    assert(decreases_to!(whole => whole->Object_0));
                    assert(decreases_to!(whole->Object_0 => whole->Object_0[i as int]));
                    assert(decreases_to!(whole->Object_0[i as int] => whole->Object_0[i as int].1));
                    lemma_take_step(kids, i as int);
                }
                if has_nested_arrays(&members[i].1, inside_array) {
                    proof {
                        lemma_members_nested_prefix(kids, i as int + 1, inside_array);
                    }
                    return true;
                }
                i = i + 1;
            }
            proof {
                lemma_take_all(kids);
            }
            false
        },
        _ => false,
    }
}

proof fn lemma_items_nested_prefix(items: Seq<Json>, k: int)
    requires
        0 <= k <= items.len(),
        items_nested_arrays(items.take(k)),
    ensures
        items_nested_arrays(items),
    decreases items.len() - k,
{
    if k < items.len() {
        lemma_take_step(items, k);
        lemma_items_nested_prefix(items, k + 1);
    } else {
        lemma_take_all(items);
    }
}

proof fn lemma_members_nested_prefix(members: Seq<(Seq<char>, Json)>, k: int, inside: bool)
    requires
        0 <= k <= members.len(),
        members_nested_arrays(members.take(k), inside),
    ensures
        members_nested_arrays(members, inside),
    decreases members.len() - k,
{
    if k < members.len() {
        lemma_take_step(members, k);
        lemma_members_nested_prefix(members, k + 1, inside);
    } else {
        lemma_take_all(members);
    }
}

/// The number of scalar values in the document.
fn count_leaf_scalars(value: &JsonValue) -> (r: usize)
    ensures
        r == cap(leaf_count(value@) as int),
    decreases value@,
{
    match value {
        JsonValue::Array(items) => {
            proof {
                lemma_array_model(*items);
            }
            let ghost kids = items_model(items@);
            let mut total: usize = 0;
            let mut i: usize = 0;
            while i < items.len()
                invariant
                    i <= items@.len(),
                    kids == items_model(items@),
                    value@ == Json::Array(kids),
                    total == cap(items_leaf_count(kids.take(i as int)) as int),
                decreases items@.len() - i,
            {
                proof {
                    let whole = value@;
                    assert(decreases_to!(whole => whole->Array_0));
                    assert(decreases_to!(whole->Array_0 => whole->Array_0[i as int]));
                    lemma_take_step(kids, i as int);
                    lemma_cap_add(items_leaf_count(kids.take(i as int)) as int, leaf_count(kids[i as int]) as int);
                }
                let c = count_leaf_scalars(&items[i]);
                total = add_capped(total, c);
                i = i + 1;
            }
            proof {
                lemma_take_all(kids);
            }
            total
        },
        JsonValue::Object(members) => {
            proof {
                lemma_object_model(*members);
            }
            let ghost kids = members_model(members@);
            let mut total: usize = 0;
            let mut i: usize = 0;
            while i < members.len()
                invariant
                    i <= members@.len(),
                    kids == members_model(members@),
                    value@ == Json::Object(kids),
                    total == cap(members_leaf_count(kids.take(i as int)) as int),
                decreases members@.len() - i,
            {
                proof {
                    let whole = value@;
                    assert(decreases_to!(whole => whole->Object_0));
                    assert(decreases_to!(whole->Object_0 => whole->Object_0[i as int]));
                    assert(decreases_to!(whole->Object_0[i as int] => whole->Object_0[i as int].1));
                    lemma_take_step(kids, i as int);
                    lemma_cap_add(
                        members_leaf_count(kids.take(i as int)) as int,
                        leaf_count(kids[i as int].1) as int,
                    );
                }
                let c = count_leaf_scalars(&members[i].1);
                total = add_capped(total, c);
                i = i + 1;
            }
            proof {
                lemma_take_all(kids);
            }
            total
        },
        _ => 1,
    }
}


/// An object's keys, as a set, count its members when no key repeats.
proof fn lemma_distinct_key_count(members: Seq<(Seq<char>, Json)>)
    requires
        crate::json::distinct_keys(members),
    ensures
        member_keys(members).to_set().len() == members.len(),
        member_keys(members).to_set().finite(),
{
    let ks = member_keys(members);
    assert(ks.no_duplicates()) by {
        assert forall|i: int, j: int| 0 <= i < ks.len() && 0 <= j < ks.len() && i != j implies ks[i]
            != ks[j] by {
            assert(members[i].0 != members[j].0);
        }
    }
    ks.unique_seq_to_set();
}

/// Each row's keys are among the keys of all rows, which are finitely many.
pub proof fn lemma_row_keys_in_union(rows: Seq<Json>, i: int)
    requires
        0 <= i < rows.len(),
    ensures
        row_keys(rows[i]).subset_of(keys_union(rows)),
        keys_union(rows).finite(),
    decreases rows.len(),
{
    lemma_keys_union_finite(rows);
    if i < rows.len() - 1 {
        lemma_row_keys_in_union(rows.drop_last(), i);
        assert(rows.drop_last()[i] == rows[i]);
    }
}

pub proof fn lemma_keys_union_finite(rows: Seq<Json>)
    ensures
        keys_union(rows).finite(),
    decreases rows.len(),
{
    broadcast use vstd::seq_lib::seq_to_set_is_finite;

    if rows.len() > 0 {
        lemma_keys_union_finite(rows.drop_last());
    }
}

/// Whether `key` is among the strings.
fn has_string(strings: &Vec<String>, key: &String) -> (r: bool)
    ensures
        r == strings@.map_values(|s: String| s@).contains(key@),
{
    let ghost view = strings@.map_values(|s: String| s@);
    let mut i: usize = 0;
    while i < strings.len()
        invariant
            i <= strings@.len(),
            view == strings@.map_values(|s: String| s@),
            forall|t: int| 0 <= t < i ==> view[t] != key@,
        decreases strings@.len() - i,
    {
        if strings[i] == *key {
            assert(view[i as int] == key@);
            return true;
        }
        i = i + 1;
    }
    false
}

/// Whether an object has a member with this key.
fn has_key(members: &Vec<(String, JsonValue)>, key: &String) -> (r: bool)
    ensures
        r == member_keys(members_model(members@)).contains(key@),
{
    let ghost ks = member_keys(members_model(members@));
    let mut i: usize = 0;
    while i < members.len()
        invariant
            i <= members@.len(),
            ks == member_keys(members_model(members@)),
            forall|t: int| 0 <= t < i ==> ks[t] != key@,
        decreases members@.len() - i,
    {
        if members[i].0 == *key {
            assert(ks[i as int] == key@);
            return true;
        }
        i = i + 1;
    }
    false
}

/// Whether every key of `a` is a key of `b`.
fn keys_within(a: &Vec<(String, JsonValue)>, b: &Vec<(String, JsonValue)>) -> (r: bool)
    ensures
        r == member_keys(members_model(a@)).to_set().subset_of(
            member_keys(members_model(b@)).to_set(),
        ),
{
    let ghost ka = member_keys(members_model(a@));
    let ghost kb = member_keys(members_model(b@));
    let mut i: usize = 0;
    while i < a.len()
        invariant
            i <= a@.len(),
            ka == member_keys(members_model(a@)),
            kb == member_keys(members_model(b@)),
            forall|t: int| 0 <= t < i ==> kb.contains(#[trigger] ka[t]),
        decreases a@.len() - i,
    {
        if !has_key(b, &a[i].0) {
            assert(ka.to_set().contains(ka[i as int]));
            assert(!kb.to_set().contains(ka[i as int]));
            return false;
        }
        i = i + 1;
    }
    assert forall|x: Seq<char>| ka.to_set().contains(x) implies kb.to_set().contains(x) by {
        let t = choose|t: int| 0 <= t < ka.len() && #[trigger] ka[t] == x;
        assert(kb.contains(ka[t]));
    }
    true
}

/// Whether two objects have the same set of keys.
fn same_keys(a: &Vec<(String, JsonValue)>, b: &Vec<(String, JsonValue)>) -> (r: bool)
    ensures
        r == (member_keys(members_model(a@)).to_set() == member_keys(members_model(b@)).to_set()),
{
    let x = keys_within(a, b);
    let y = keys_within(b, a);
    proof {
        let sa = member_keys(members_model(a@)).to_set();
        let sb = member_keys(members_model(b@)).to_set();
        if x && y {
            assert(sa =~= sb);
        }
    }
    x && y
}


/// Whether the value is an object.
fn is_object(value: &JsonValue) -> (r: bool)
    ensures
        r == value@ is Object,
{
    match value {
        JsonValue::Object(members) => {
            proof {
                lemma_object_model(*members);
            }
            true
        },
        JsonValue::Array(items) => {
            proof {
                lemma_array_model(*items);
            }
            false
        },
        _ => false,
    }
}

proof fn lemma_union_step(
    fields: Seq<Seq<char>>,
    before: Set<Seq<char>>,
    done: Seq<Seq<char>>,
    key: Seq<char>,
)
    requires
        fields.to_set() == before.union(done.to_set()),
    ensures
        fields.push(key).to_set() == before.union(done.push(key).to_set()),
        fields.contains(key) ==> fields.to_set() == before.union(done.push(key).to_set()),
{
    fields.lemma_push_to_set_commute(key);
    done.lemma_push_to_set_commute(key);
    assert(fields.push(key).to_set() =~= before.union(done.push(key).to_set()));
    if fields.contains(key) {
        assert(fields.to_set().contains(key));
        assert(fields.to_set() =~= before.union(done.push(key).to_set()));
    }
}

/// What the analysis says of a top-level array of object rows.
fn analyze_top_level_array(value: &JsonValue) -> (r: TableShape)
    requires
        wf_json(value@),
    ensures
        r == table_shape(value@),
{
    let zero = Ratio { numerator: 0, denominator: 1 };
    let one = Ratio { numerator: 1, denominator: 1 };
    let rows = match value {
        JsonValue::Array(rows) => rows,
        _ => {
            proof {
                if let JsonValue::Object(members) = value {
                    lemma_object_model(*members);
                }
            }
            return TableShape {
                row_count: 0,
                field_count: 0,
                sparsity: zero,
                uniformity: zero,
                scalar_field_count: 0,
                nested_field_count: 0,
                nested_value_field_count: 0,
                is_uniform_object_array: false,
                is_flat_object_array: false,
            };
        },
    };
    proof {
        lemma_array_model(*rows);
    }
    let ghost rs = items_model(rows@);
    let n = rows.len();
    if n == 0 {
        return TableShape {
            row_count: 0,
            field_count: 0,
            sparsity: zero,
            uniformity: one,
            scalar_field_count: 0,
            nested_field_count: 0,
            nested_value_field_count: 0,
            is_uniform_object_array: false,
            is_flat_object_array: false,
        };
    }
    let mut i: usize = 0;
    while i < n
        invariant
            i <= n == rows@.len(),
            rs == items_model(rows@),
            value@ == Json::Array(rs),
            forall|t: int| 0 <= t < i ==> #[trigger] rs[t] is Object,
        decreases n - i,
    {
        if !is_object(&rows[i]) {
            proof {
                assert(rs[i as int] == rows@[i as int]@);
                assert(!all_objects(rs));
            }
            return TableShape {
                row_count: n,
                field_count: 0,
                sparsity: Ratio { numerator: 1, denominator: 1 },
                uniformity: Ratio { numerator: 0, denominator: 1 },
                scalar_field_count: 0,
                nested_field_count: 0,
                nested_value_field_count: 0,
                is_uniform_object_array: false,
                is_flat_object_array: false,
            };
        }
        i = i + 1;
    }
    assert(all_objects(rs));

    // Every key, and the scalar and nested members, over all rows.
    let mut fields: Vec<String> = Vec::new();
    let mut scalar: usize = 0;
    let mut nested: usize = 0;
    let mut leaves: usize = 0;
    let mut i: usize = 0;
    proof {
        assert(fields@.map_values(|s: String| s@).to_set() =~= keys_union(rs.take(0)));
    }
    while i < n
        invariant
            i <= n == rows@.len(),
            rs == items_model(rows@),
            value@ == Json::Array(rs),
            all_objects(rs),
            fields@.map_values(|s: String| s@).to_set() == keys_union(rs.take(i as int)),
            fields@.map_values(|s: String| s@).no_duplicates(),
            scalar == cap(rows_scalar(rs.take(i as int)) as int),
            nested == cap(rows_nested(rs.take(i as int)) as int),
            leaves == cap(rows_nested_leaves(rs.take(i as int)) as int),
        decreases n - i,
    {
        let members = object_members(&rows[i]);
        let ghost mm = members_model(members@);
        let ghost before = keys_union(rs.take(i as int));
        let ghost sc0: int = rows_scalar(rs.take(i as int)) as int;
        let ghost ne0: int = rows_nested(rs.take(i as int)) as int;
        let ghost le0: int = rows_nested_leaves(rs.take(i as int)) as int;
        proof {
            assert(rs[i as int] == rows@[i as int]@);
            assert(mm == rs[i as int]->Object_0);
            assert(member_keys(mm.take(0)).to_set() =~= Set::<Seq<char>>::empty());
            assert(before.union(member_keys(mm.take(0)).to_set()) =~= before);
        }
        let mut k: usize = 0;
        while k < members.len()
            invariant
                k <= members@.len(),
                mm == members_model(members@),
                0 <= sc0,
                0 <= ne0,
                0 <= le0,
                fields@.map_values(|s: String| s@).to_set() == before.union(
                    member_keys(mm.take(k as int)).to_set(),
                ),
                fields@.map_values(|s: String| s@).no_duplicates(),
                scalar == cap(sc0 + scalar_members(mm.take(k as int))),
                nested == cap(ne0 + nested_members(mm.take(k as int))),
                leaves == cap(le0 + nested_member_leaves(mm.take(k as int))),
            decreases members@.len() - k,
        {
            let key = &members[k].0;
            let ghost fv = fields@.map_values(|s: String| s@);
            proof {
                lemma_take_step(mm, k as int);
                assert(member_keys(mm.take(k + 1)) =~= member_keys(mm.take(k as int)).push(key@));
                lemma_union_step(fv, before, member_keys(mm.take(k as int)), key@);
            }
            if !has_string(&fields, key) {
                fields.push(key.clone());
                proof {
                    assert(fields@.map_values(|s: String| s@) =~= fv.push(key@));
                }
            }
            let val = &members[k].1;
            if is_nested(val) {
                let c = count_leaf_scalars(val);
                proof {
                    lemma_cap_add(ne0 + nested_members(mm.take(k as int)), 1);
                    lemma_cap_add(le0 + nested_member_leaves(mm.take(k as int)), leaf_count(mm[k as int].1) as int);
                }
                nested = add_capped(nested, 1);
                leaves = add_capped(leaves, c);
            } else {
                proof {
                    lemma_cap_add(sc0 + scalar_members(mm.take(k as int)), 1);
                }
                scalar = add_capped(scalar, 1);
            }
            k = k + 1;
        }
        proof {
            lemma_take_all(mm);
            lemma_take_step(rs, i as int);
        }
        i = i + 1;
    }
    proof {
        lemma_take_all(rs);
        fields@.map_values(|s: String| s@).unique_seq_to_set();
    }
    let total = fields.len();
    if total == 0 {
        return TableShape {
            row_count: n,
            field_count: 0,
            sparsity: zero,
            uniformity: one,
            scalar_field_count: 0,
            nested_field_count: 0,
            nested_value_field_count: 0,
            is_uniform_object_array: true,
            is_flat_object_array: true,
        };
    }

    // The cells that the rows leave empty.
    let mut empty: u128 = 0;
    let mut i: usize = 0;
    while i < n
        invariant
            i <= n == rows@.len(),
            rs == items_model(rows@),
            value@ == Json::Array(rs),
            wf_json(value@),
            all_objects(rs),
            total == keys_union(rs).len(),
            0 < total <= usize::MAX,
            empty == empty_cells(rs.take(i as int), total as int),
            empty <= i * total,
        decreases n - i,
    {
        let members = object_members(&rows[i]);
        proof {
            assert(rs[i as int] == rows@[i as int]@);
            let whole = value@;
            assert(whole->Array_0 == rs);
            assert(wf_json(whole->Array_0[i as int]));
            lemma_distinct_key_count(rs[i as int]->Object_0);
            lemma_row_keys_in_union(rs, i as int);
            vstd::set_lib::lemma_len_subset(row_keys(rs[i as int]), keys_union(rs));
            lemma_take_step(rs, i as int);
            assert((i + 1) * total == i * total + total) by (nonlinear_arith);
            assert((i + 1) * total <= usize::MAX * usize::MAX) by (nonlinear_arith)
                requires
                    i < n <= usize::MAX,
                    total <= usize::MAX,
            ;
        }
        let c = members.len();
        empty = empty + ((total - c) as u128);
        i = i + 1;
    }
    proof {
        lemma_take_all(rs);
    }

    // The rows whose key set is the first row's.
    let first = object_members(&rows[0]);
    let mut matching: usize = 0;
    let mut i: usize = 0;
    while i < n
        invariant
            i <= n == rows@.len(),
            rs == items_model(rows@),
            all_objects(rs),
            rs[0] == Json::Object(members_model(first@)),
            matching == rows_with_keys(rs.take(i as int), row_keys(rs[0])),
            matching <= i,
        decreases n - i,
    {
        proof {
            assert(rs[i as int] == rows@[i as int]@);
            lemma_take_step(rs, i as int);
        }
        let members = object_members(&rows[i]);
        if same_keys(members, first) {
            matching = matching + 1;
        }
        i = i + 1;
    }
    proof {
        lemma_take_all(rs);
        assert(n * total <= usize::MAX * usize::MAX) by (nonlinear_arith)
            requires
                n <= usize::MAX,
                total <= usize::MAX,
        ;
    }
    let cells: u128 = (n as u128) * (total as u128);
    let uniform = matching == n;
    TableShape {
        row_count: n,
        field_count: total,
        sparsity: Ratio { numerator: empty, denominator: cells },
        uniformity: Ratio { numerator: matching as u128, denominator: n as u128 },
        scalar_field_count: scalar,
        nested_field_count: nested,
        nested_value_field_count: leaves,
        is_uniform_object_array: uniform,
        is_flat_object_array: uniform && nested == 0,
    }
}

/// Analyzes the shape of a document: its depth, whether arrays nest, and
/// what a top-level array of object rows looks like as a table.
pub fn analyze(value: &JsonValue) -> (r: DataAnalysis)
    requires
        wf_json(value@),
    ensures
        r == analysis_of(value@),
{
    let depth = max_depth(value);
    let has_nested_arrays = has_nested_arrays(value, false);
    let table = analyze_top_level_array(value);
    DataAnalysis {
        depth,
        row_count: table.row_count,
        field_count: table.field_count,
        sparsity: table.sparsity,
        uniformity: table.uniformity,
        scalar_field_count: table.scalar_field_count,
        nested_field_count: table.nested_field_count,
        nested_value_field_count: table.nested_value_field_count,
        has_nested_arrays,
        is_uniform_object_array: table.is_uniform_object_array,
        is_flat_object_array: table.is_flat_object_array,
        is_deeply_nested: depth >= 5,
    }
}

} // verus!
