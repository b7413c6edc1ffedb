//! Deterministic emitters for prompt-facing output formats, and the
//! canonical (key-sorted) form of a document that they are given.
use crate::codecs::{
    json_compact_text, json_to_string, number_display, number_text, toon_encode, toon_text,
    yaml_text, yaml_to_string,
};
use crate::error::LlmFmtError;
use crate::format::{output_label, OutputFormat};
use crate::json::{
    distinct_keys, is_container, items_model, lemma_array_model, lemma_object_model, member_keys,
    members_model, to_serde, wf_json, Json, JsonValue,
};
use crate::order::{
    key_before, key_less, lemma_key_less_asymmetric, lemma_key_less_irreflexive,
    lemma_key_less_total, lemma_key_less_transitive,
};
use crate::text::{chars_to_string, push_all, push_str, str_chars, trim_end, trim_end_chars};
use crate::analysis::{all_objects, keys_union};
use crate::validation::{
    has_nested_member, row_problem, rows_problem, table_rows, table_rows_of, tsv_problem,
    validate_tsv_value,
};
use vstd::prelude::*;

verus! {

// ---------------------------------------------------------------------------
// Canonical form
// ---------------------------------------------------------------------------

/// Inserts a member into members sorted by key, after every member whose key
/// does not come after its own (so that equal keys keep their order).
pub open spec fn insert_member(m: (Seq<char>, Json), sorted: Seq<(Seq<char>, Json)>) -> Seq<
    (Seq<char>, Json),
>
    decreases sorted.len(),
{
    if sorted.len() == 0 {
        seq![m]
    } else if key_less(m.0, sorted[0].0) {
        seq![m] + sorted
    } else {
        seq![sorted[0]] + insert_member(m, sorted.drop_first())
    }
}

/// The members sorted by key: a stable sort, as `sort_by` on the keys is.
pub open spec fn sort_members(members: Seq<(Seq<char>, Json)>) -> Seq<(Seq<char>, Json)>
    decreases members.len(),
{
    if members.len() == 0 {
        Seq::empty()
    } else {
        insert_member(members.last(), sort_members(members.drop_last()))
    }
}

/// The members in the order given, each value in canonical form.
pub open spec fn canonical_members(members: Seq<(Seq<char>, Json)>) -> Seq<(Seq<char>, Json)>
    decreases members, 0int,
{
    Seq::new(
        members.len(),
        |i: int|
            if 0 <= i < members.len() {
                (members[i].0, canonical(members[i].1))
            } else {
                (Seq::<char>::empty(), Json::Null)
            },
    )
}

/// The canonical form of a document: the members of every object sorted by
/// key, at every depth; everything else as it was.
pub open spec fn canonical(j: Json) -> Json
    decreases j, 1int,
{
    match j {
        Json::Array(items) => Json::Array(
            Seq::new(
                items.len(),
                |i: int|
                    if 0 <= i < items.len() {
                        canonical(items[i])
                    } else {
                        Json::Null
                    },
            ),
        ),
        Json::Object(members) => Json::Object(sort_members(canonical_members(members))),
        _ => j,
    }
}

/// The keys ascend strictly.
pub open spec fn keys_ascending(members: Seq<(Seq<char>, Json)>) -> bool {
    forall|i: int, j: int|
        0 <= i < j < members.len() ==> key_less(#[trigger] members[i].0, #[trigger] members[j].0)
}

/// Every object in the document has its keys in strictly ascending order.
pub open spec fn sorted_json(j: Json) -> bool
    decreases j,
{
    match j {
        Json::Array(items) => forall|i: int|
            0 <= i < items.len() ==> sorted_json(#[trigger] items[i]),
        Json::Object(members) => keys_ascending(members) && forall|i: int|
            0 <= i < members.len() ==> sorted_json(#[trigger] members[i].1),
        _ => true,
    }
}

/// Where a member goes: after the first `p` members, whose keys do not come
/// after its own, and before the rest.
proof fn lemma_insert_member_at(m: (Seq<char>, Json), sorted: Seq<(Seq<char>, Json)>, p: int)
    requires
        0 <= p <= sorted.len(),
        forall|k: int| 0 <= k < p ==> !key_less(m.0, #[trigger] sorted[k].0),
        p < sorted.len() ==> key_less(m.0, sorted[p].0),
    ensures
        insert_member(m, sorted) == sorted.take(p).push(m) + sorted.skip(p),
    decreases sorted.len(),
{
    if sorted.len() == 0 {
        assert(sorted.take(p).push(m) + sorted.skip(p) =~= seq![m]);
    } else if p == 0 {
        assert(sorted.take(p).push(m) + sorted.skip(p) =~= seq![m] + sorted);
    } else {
        let rest = sorted.drop_first();
        assert(!key_less(m.0, sorted[0].0));
        assert forall|k: int| 0 <= k < p - 1 implies !key_less(m.0, #[trigger] rest[k].0) by {
            assert(rest[k] == sorted[k + 1]);
        }
        lemma_insert_member_at(m, rest, p - 1);
        assert(seq![sorted[0]] + (rest.take(p - 1).push(m) + rest.skip(p - 1)) =~= sorted.take(
            p,
        ).push(m) + sorted.skip(p));
    }
}

/// Inserting a member adds exactly that member.
proof fn lemma_insert_member_contents(m: (Seq<char>, Json), sorted: Seq<(Seq<char>, Json)>)
    ensures
        insert_member(m, sorted).len() == sorted.len() + 1,
        forall|x: (Seq<char>, Json)|
            #[trigger] insert_member(m, sorted).contains(x) <==> (x == m || sorted.contains(x)),
    decreases sorted.len(),
{
    if sorted.len() == 0 {
        assert forall|x: (Seq<char>, Json)| #[trigger]
            insert_member(m, sorted).contains(x) <==> (x == m || sorted.contains(x)) by {
            if insert_member(m, sorted).contains(x) {
                assert(insert_member(m, sorted)[0] == m);
            }
            if x == m {
                assert(insert_member(m, sorted)[0] == m);
            }
        }
    } else if key_less(m.0, sorted[0].0) {
        let r = insert_member(m, sorted);
        assert forall|x: (Seq<char>, Json)| #[trigger]
            r.contains(x) <==> (x == m || sorted.contains(x)) by {
            if r.contains(x) {
                let k = choose|k: int| 0 <= k < r.len() && r[k] == x;
                if k > 0 {
                    assert(sorted[k - 1] == x);
                }
            }
            if x == m {
                assert(r[0] == m);
            }
            if sorted.contains(x) {
                let k = choose|k: int| 0 <= k < sorted.len() && sorted[k] == x;
                assert(r[k + 1] == x);
            }
        }
    } else {
        let rest = sorted.drop_first();
        lemma_insert_member_contents(m, rest);
        let r = insert_member(m, sorted);
        let t = insert_member(m, rest);
        assert(r == seq![sorted[0]] + t);
        assert forall|x: (Seq<char>, Json)| #[trigger]
            r.contains(x) <==> (x == m || sorted.contains(x)) by {
            if r.contains(x) {
                let k = choose|k: int| 0 <= k < r.len() && r[k] == x;
                if k > 0 {
                    assert(t[k - 1] == x);
                    assert(t.contains(x));
                    if rest.contains(x) {
                        let q = choose|q: int| 0 <= q < rest.len() && rest[q] == x;
                        assert(sorted[q + 1] == x);
                    }
                } else {
                    assert(sorted[0] == x);
                }
            }
            if x == m {
                assert(t.contains(m));
                let q = choose|q: int| 0 <= q < t.len() && t[q] == m;
                assert(r[q + 1] == m);
            }
            if sorted.contains(x) {
                let k = choose|k: int| 0 <= k < sorted.len() && sorted[k] == x;
                if k == 0 {
                    assert(r[0] == x);
                } else {
                    assert(rest[k - 1] == x);
                    assert(t.contains(x));
                    let q = choose|q: int| 0 <= q < t.len() && t[q] == x;
                    assert(r[q + 1] == x);
                }
            }
        }
    }
}

/// Inserting a member whose key is new keeps the keys ascending.
proof fn lemma_insert_member_ascending(m: (Seq<char>, Json), sorted: Seq<(Seq<char>, Json)>)
    requires
        keys_ascending(sorted),
        forall|k: int| 0 <= k < sorted.len() ==> #[trigger] sorted[k].0 != m.0,
    ensures
        keys_ascending(insert_member(m, sorted)),
    decreases sorted.len(),
{
    let r = insert_member(m, sorted);
    if sorted.len() == 0 {
    } else if key_less(m.0, sorted[0].0) {
        assert forall|i: int, j: int| 0 <= i < j < r.len() implies key_less(
            #[trigger] r[i].0,
            #[trigger] r[j].0,
        ) by {
            if i == 0 {
                if j > 1 {
                    assert(key_less(sorted[0].0, sorted[j - 1].0));
                    lemma_key_less_transitive(m.0, sorted[0].0, sorted[j - 1].0);
                }
            } else {
                assert(r[i] == sorted[i - 1] && r[j] == sorted[j - 1]);
            }
        }
    } else {
        let rest = sorted.drop_first();
        assert forall|i: int, j: int| 0 <= i < j < rest.len() implies key_less(
            #[trigger] rest[i].0,
            #[trigger] rest[j].0,
        ) by {
            assert(rest[i] == sorted[i + 1] && rest[j] == sorted[j + 1]);
        }
        assert forall|k: int| 0 <= k < rest.len() implies #[trigger] rest[k].0 != m.0 by {
            assert(rest[k] == sorted[k + 1]);
        }
        lemma_insert_member_ascending(m, rest);
        lemma_insert_member_contents(m, rest);
        let t = insert_member(m, rest);
        assert(r == seq![sorted[0]] + t);
        lemma_key_less_total(m.0, sorted[0].0);
        assert(key_less(sorted[0].0, m.0)) by {
            assert(sorted[0].0 != m.0);
        }
        assert forall|i: int, j: int| 0 <= i < j < r.len() implies key_less(
            #[trigger] r[i].0,
            #[trigger] r[j].0,
        ) by {
            if i == 0 {
                assert(r[j] == t[j - 1]);
                assert(t.contains(t[j - 1]));
                if t[j - 1] != m {
                    assert(rest.contains(t[j - 1]));
                    let q = choose|q: int| 0 <= q < rest.len() && rest[q] == t[j - 1];
                    assert(sorted[q + 1] == rest[q]);
                    assert(key_less(sorted[0].0, sorted[q + 1].0));
                }
            } else {
                assert(r[i] == t[i - 1] && r[j] == t[j - 1]);
            }
        }
    }
}

/// Sorting keeps exactly the members given.
proof fn lemma_sort_members_contents(members: Seq<(Seq<char>, Json)>)
    ensures
        sort_members(members).len() == members.len(),
        forall|x: (Seq<char>, Json)| #[trigger]
            sort_members(members).contains(x) <==> members.contains(x),
    decreases members.len(),
{
    if members.len() > 0 {
        let init = members.drop_last();
        lemma_sort_members_contents(init);
        lemma_insert_member_contents(members.last(), sort_members(init));
        assert forall|x: (Seq<char>, Json)| #[trigger]
            sort_members(members).contains(x) <==> members.contains(x) by {
            if init.contains(x) {
                let k = choose|k: int| 0 <= k < init.len() && init[k] == x;
                assert(members[k] == x);
            }
            if members.contains(x) {
                let k = choose|k: int| 0 <= k < members.len() && members[k] == x;
                if k < members.len() - 1 {
                    assert(init[k] == x);
                }
            }
        }
    }
}

/// Sorting members whose keys are distinct makes the keys ascend strictly.
proof fn lemma_sort_members_ascending(members: Seq<(Seq<char>, Json)>)
    requires
        distinct_keys(members),
    ensures
        keys_ascending(sort_members(members)),
    decreases members.len(),
{
    if members.len() > 0 {
        let init = members.drop_last();
        assert(distinct_keys(init)) by {
            assert forall|i: int, j: int|
                0 <= i < init.len() && 0 <= j < init.len() && i != j implies #[trigger] init[i].0
                != #[trigger] init[j].0 by {
                assert(init[i] == members[i] && init[j] == members[j]);
            }
        }
        lemma_sort_members_ascending(init);
        lemma_sort_members_contents(init);
        let s = sort_members(init);
        assert forall|k: int| 0 <= k < s.len() implies #[trigger] s[k].0 != members.last().0 by {
            assert(s.contains(s[k]));
            let q = choose|q: int| 0 <= q < init.len() && init[q] == s[k];
            assert(members[q] == init[q]);
        }
        lemma_insert_member_ascending(members.last(), s);
    }
}

/// Members whose keys ascend are already sorted.
proof fn lemma_sort_members_ascending_fixed(members: Seq<(Seq<char>, Json)>)
    requires
        keys_ascending(members),
    ensures
        sort_members(members) == members,
    decreases members.len(),
{
    if members.len() > 0 {
        let init = members.drop_last();
        let n = members.len() - 1;
        assert(keys_ascending(init)) by {
            assert forall|i: int, j: int| 0 <= i < j < init.len() implies key_less(
                #[trigger] init[i].0,
                #[trigger] init[j].0,
            ) by {
                assert(init[i] == members[i] && init[j] == members[j]);
            }
        }
        lemma_sort_members_ascending_fixed(init);
        assert forall|k: int| 0 <= k < n implies !key_less(
            members.last().0,
            #[trigger] init[k].0,
        ) by {
            assert(key_less(members[k].0, members[n].0));
            lemma_key_less_asymmetric(members[k].0, members[n].0);
        }
        lemma_insert_member_at(members.last(), init, n);
        assert(init.take(n).push(members.last()) + init.skip(n) =~= members);
    }
}

/// Ascending keys are distinct keys.
proof fn lemma_ascending_distinct(members: Seq<(Seq<char>, Json)>)
    requires
        keys_ascending(members),
    ensures
        distinct_keys(members),
{
    assert forall|i: int, j: int|
        0 <= i < members.len() && 0 <= j < members.len() && i != j implies #[trigger] members[i].0
        != #[trigger] members[j].0 by {
        if i < j {
            assert(key_less(members[i].0, members[j].0));
            lemma_key_less_irreflexive(members[i].0);
        } else {
            assert(key_less(members[j].0, members[i].0));
            lemma_key_less_irreflexive(members[j].0);
        }
    }
}

/// The canonical form of a well-formed document is well-formed and sorted.
pub proof fn lemma_canonical_sorted(j: Json)
    requires
        wf_json(j),
    ensures
        wf_json(canonical(j)),
        sorted_json(canonical(j)),
    decreases j,
{
    match j {
        Json::Array(items) => {
            let c = canonical(j)->Array_0;
            assert forall|i: int| 0 <= i < c.len() implies wf_json(#[trigger] c[i]) && sorted_json(
                c[i],
            ) by {
                assert(c[i] == canonical(items[i]));
                lemma_canonical_sorted(items[i]);
            }
        },
        Json::Object(members) => {
            let cm = canonical_members(members);
            assert(distinct_keys(cm)) by {
                assert forall|a: int, b: int|
                    0 <= a < cm.len() && 0 <= b < cm.len() && a != b implies #[trigger] cm[a].0
                    != #[trigger] cm[b].0 by {
                    assert(cm[a].0 == members[a].0 && cm[b].0 == members[b].0);
                }
            }
            lemma_sort_members_ascending(cm);
            lemma_sort_members_contents(cm);
            let s = sort_members(cm);
            lemma_ascending_distinct(s);
            assert forall|i: int| 0 <= i < s.len() implies wf_json(#[trigger] s[i].1) && sorted_json(
                s[i].1,
            ) by {
                assert(s.contains(s[i]));
                let q = choose|q: int| 0 <= q < cm.len() && cm[q] == s[i];
                assert(cm[q].1 == canonical(members[q].1));
                lemma_canonical_sorted(members[q].1);
            }
        },
        _ => {},
    }
}

/// The canonical form of a document already in canonical form is itself.
pub proof fn lemma_canonical_fixed(j: Json)
    requires
        sorted_json(j),
    ensures
        canonical(j) == j,
    decreases j,
{
    match j {
        Json::Array(items) => {
            let c = canonical(j)->Array_0;
            assert forall|i: int| 0 <= i < items.len() implies c[i] == items[i] by {
                lemma_canonical_fixed(items[i]);
            }
            assert(c =~= items);
        },
        Json::Object(members) => {
            let cm = canonical_members(members);
            assert forall|i: int| 0 <= i < members.len() implies cm[i] == members[i] by {
                lemma_canonical_fixed(members[i].1);
            }
            assert(cm =~= members);
            lemma_sort_members_ascending_fixed(members);
        },
        _ => {},
    }
}

/// The keys of members, as characters, one vector per key.
spec fn key_chars_match(keys: Seq<Vec<char>>, members: Seq<(String, JsonValue)>) -> bool {
    keys.len() == members.len() && forall|k: int|
        0 <= k < keys.len() ==> (#[trigger] keys[k])@ == members[k].0@
}

/// Sorts object members by key and every value into canonical form, at
/// every depth.
pub fn canonicalize_value(value: JsonValue) -> (r: JsonValue)
    ensures
        r@ == canonical(value@),
    decreases value@,
{
    let ghost whole = value@;
    match value {
        JsonValue::Array(items) => {
            proof {
                lemma_array_model(items);
            }
            let ghost orig = items@;
            let mut rest = items;
            let mut out: Vec<JsonValue> = Vec::new();
            while rest.len() > 0
                invariant
                    whole == value@,
                    whole == Json::Array(items_model(orig)),
                    out@.len() + rest@.len() == orig.len(),
                    rest@ == orig.skip(out@.len() as int),
                    forall|k: int|
                        0 <= k < out@.len() ==> #[trigger] out@[k]@ == canonical(orig[k]@),
                decreases rest@.len(),
            {
                let ghost i = out@.len() as int;
                let x = rest.remove(0);
                proof {
                    assert(x == orig[i]);
                    assert(rest@ =~= orig.skip(i + 1));
                    assert(decreases_to!(whole => whole->Array_0));
                    assert(whole->Array_0[i] == x@);
                    assert(decreases_to!(whole->Array_0 => whole->Array_0[i]));
                }
                let c = canonicalize_value(x);
                out.push(c);
            }
            proof {
                lemma_array_model(out);
                assert(items_model(out@) =~= canonical(whole)->Array_0);
            }
            JsonValue::Array(out)
        },
        JsonValue::Object(members) => {
            proof {
                lemma_object_model(members);
            }
            let ghost orig = members@;
            let ghost cm = canonical_members(members_model(orig));
            let mut rest = members;
            let mut sorted: Vec<(String, JsonValue)> = Vec::new();
            let mut keys: Vec<Vec<char>> = Vec::new();
            let mut n: usize = 0;
            let total: usize = rest.len();
            while rest.len() > 0
                invariant
                    whole == value@,
                    whole == Json::Object(members_model(orig)),
                    orig.len() == total,
                    cm == canonical_members(members_model(orig)),
                    n + rest@.len() == orig.len(),
                    rest@ == orig.skip(n as int),
                    members_model(sorted@) == sort_members(cm.take(n as int)),
                    key_chars_match(keys@, sorted@),
                decreases rest@.len(),
            {
                let (key, val) = rest.remove(0);
                proof {
                    assert(rest@ =~= orig.skip(n + 1));
                    assert(decreases_to!(whole => whole->Object_0));
                    assert(whole->Object_0[n as int] == (key@, val@));
                    assert(decreases_to!(whole->Object_0 => whole->Object_0[n as int]));
                    assert(decreases_to!(whole->Object_0[n as int] => whole->Object_0[n as int].1));
                }
                let c = canonicalize_value(val);
                let kc = str_chars(key.as_str());
                let ghost m = (key@, c@);
                let ghost before = members_model(sorted@);
                let mut p: usize = 0;
                while p < sorted.len() && !key_before(kc.as_slice(), keys[p].as_slice())
                    invariant
                        p <= sorted@.len(),
                        before == members_model(sorted@),
                        key_chars_match(keys@, sorted@),
                        kc@ == m.0,
                        forall|k: int| 0 <= k < p ==> !key_less(m.0, #[trigger] before[k].0),
                    decreases sorted@.len() - p,
                {
                    p = p + 1;
                }
                proof {
                    lemma_insert_member_at(m, before, p as int);
                }
                sorted.insert(p, (key, c));
                keys.insert(p, kc);
                proof {
                    assert(cm.take(n + 1).drop_last() =~= cm.take(n as int));
                    assert(cm[n as int] == m);
                    assert(members_model(sorted@) =~= before.take(p as int).push(m) + before.skip(
                        p as int,
                    ));
                    assert forall|k: int| 0 <= k < keys@.len() implies (#[trigger] keys@[k])@
                        == sorted@[k].0@ by {
                        if k < p {
                        } else if k > p {
                        }
                    }
                }
                n = n + 1;
            }
            proof {
                lemma_object_model(sorted);
                assert(cm.take(n as int) =~= cm);
            }
            JsonValue::Object(sorted)
        },
        JsonValue::Null => JsonValue::Null,
        JsonValue::Bool(b) => JsonValue::Bool(b),
        JsonValue::Number(n) => JsonValue::Number(n),
        JsonValue::String(s) => JsonValue::String(s),
    }
}

// ---------------------------------------------------------------------------
// TSV
// ---------------------------------------------------------------------------

/// A character as a TSV cell writes it: line feed, tab, backslash and the
/// delimiter are escaped with a backslash.
pub open spec fn escape_char(c: char, delimiter: char) -> Seq<char> {
    if c == '\n' {
        seq!['\\', 'n']
    } else if c == '\t' {
        seq!['\\', 't']
    } else if c == '\\' {
        seq!['\\', '\\']
    } else if c == delimiter {
        seq!['\\', c]
    } else {
        seq![c]
    }
}

/// A text as a TSV cell writes it, character by character.
pub open spec fn escaped(s: Seq<char>, delimiter: char) -> Seq<char>
    decreases s.len(),
{
    if s.len() == 0 {
        Seq::empty()
    } else {
        escaped(s.drop_last(), delimiter) + escape_char(s.last(), delimiter)
    }
}

/// The text of a scalar cell: nothing for null, `true` or `false`, a number
/// as it displays, a string escaped. (A table that passes validation holds
/// no array or object in a cell.)
pub open spec fn cell_text(j: Json, delimiter: char) -> Seq<char> {
    match j {
        Json::Null => Seq::empty(),
        Json::Bool(b) => if b {
            "true"@
        } else {
            "false"@
        },
        Json::Number(n) => number_display(n),
        Json::Str(s) => escaped(s, delimiter),
        _ => Seq::empty(),
    }
}

/// The value of the first member with the key, or null where there is none.
pub open spec fn member_value(members: Seq<(Seq<char>, Json)>, key: Seq<char>) -> Json
    decreases members.len(),
{
    if members.len() == 0 {
        Json::Null
    } else if members[0].0 == key {
        members[0].1
    } else {
        member_value(members.drop_first(), key)
    }
}

/// Adds a key to keys in ascending order, unless it is there already.
pub open spec fn insert_key(key: Seq<char>, sorted: Seq<Seq<char>>) -> Seq<Seq<char>>
    decreases sorted.len(),
{
    if sorted.len() == 0 {
        seq![key]
    } else if sorted[0] == key {
        sorted
    } else if key_less(key, sorted[0]) {
        seq![key] + sorted
    } else {
        seq![sorted[0]] + insert_key(key, sorted.drop_first())
    }
}

/// Adds keys, one after another, to keys in ascending order.
pub open spec fn insert_keys(keys: Seq<Seq<char>>, sorted: Seq<Seq<char>>) -> Seq<Seq<char>>
    decreases keys.len(),
{
    if keys.len() == 0 {
        sorted
    } else {
        insert_key(keys.last(), insert_keys(keys.drop_last(), sorted))
    }
}

/// The keys of an object row; none for a row of another kind.
pub open spec fn object_keys(row: Json) -> Seq<Seq<char>> {
    match row {
        Json::Object(members) => member_keys(members),
        _ => Seq::empty(),
    }
}

/// The columns of a table: every key of every row, once each, ascending.
pub open spec fn table_fields(rows: Seq<Json>) -> Seq<Seq<char>>
    decreases rows.len(),
{
    if rows.len() == 0 {
        Seq::empty()
    } else {
        insert_keys(object_keys(rows.last()), table_fields(rows.drop_last()))
    }
}

/// Cells joined by tabs.
pub open spec fn join_tabs(cells: Seq<Seq<char>>) -> Seq<char>
    decreases cells.len(),
{
    if cells.len() == 0 {
        Seq::empty()
    } else if cells.len() == 1 {
        cells[0]
    } else {
        join_tabs(cells.drop_last()) + seq!['\t'] + cells.last()
    }
}

/// The cells of one row, one per column: the row's value for the column's
/// key, null where it has none.
pub open spec fn row_cells(row: Json, fields: Seq<Seq<char>>) -> Seq<Seq<char>> {
    Seq::new(fields.len(), |i: int| cell_text(member_value(row->Object_0, fields[i]), '\t'))
}

/// The lines of the rows, each ended by a line feed.
pub open spec fn tsv_rows(rows: Seq<Json>, fields: Seq<Seq<char>>) -> Seq<char>
    decreases rows.len(),
{
    if rows.len() == 0 {
        Seq::empty()
    } else {
        tsv_rows(rows.drop_last(), fields) + join_tabs(row_cells(rows.last(), fields)) + seq![
            '\n',
        ]
    }
}

/// The TSV text of a table: a header line of the columns, then a line per row.
pub open spec fn tsv_text(j: Json) -> Seq<char> {
    let rows = match table_rows_of(j) {
        Some(rows) => rows,
        None => Seq::empty(),
    };
    let fields = table_fields(rows);
    join_tabs(fields) + seq!['\n'] + tsv_rows(rows, fields)
}

/// Appends the escaped text.
fn push_escaped(out: &mut Vec<char>, s: &str, delimiter: char)
    ensures
        final(out)@ == old(out)@ + escaped(s@, delimiter),
{
    let cs = str_chars(s);
    let mut i: usize = 0;
    while i < cs.len()
        invariant
            i <= cs@.len(),
            cs@ == s@,
            out@ == old(out)@ + escaped(cs@.take(i as int), delimiter),
        decreases cs@.len() - i,
    {
        let c = cs[i];
        let ghost before = out@;
        if c == '\n' {
            out.push('\\');
            out.push('n');
        } else if c == '\t' {
            out.push('\\');
            out.push('t');
        } else if c == '\\' {
            out.push('\\');
            out.push('\\');
        } else if c == delimiter {
            out.push('\\');
            out.push(c);
        } else {
            out.push(c);
        }
        proof {
            assert(cs@.take(i + 1).drop_last() =~= cs@.take(i as int));
            assert(out@ =~= before + escape_char(c, delimiter));
        }
        i = i + 1;
    }
    proof {
        assert(cs@.take(cs@.len() as int) =~= cs@);
    }
}

/// A text as a TSV cell writes it: line feed, tab, backslash and the
/// delimiter escaped with a backslash.
pub fn escape_text(value: &str, delimiter: char) -> (r: String)
    ensures
        r@ == escaped(value@, delimiter),
{
    let mut out: Vec<char> = Vec::new();
    push_escaped(&mut out, value, delimiter);
    proof {
        assert(Seq::<char>::empty() + escaped(value@, delimiter) =~= escaped(value@, delimiter));
    }
    chars_to_string(out.as_slice())
}

/// Appends the text of a scalar cell.
fn encode_scalar(out: &mut Vec<char>, value: &JsonValue, delimiter: char)
    requires
        !is_container(value@),
    ensures
        final(out)@ == old(out)@ + cell_text(value@, delimiter),
{
    match value {
        JsonValue::Null => {
            assert(old(out)@ + Seq::<char>::empty() =~= old(out)@);
        },
        JsonValue::Bool(b) => {
            if *b {
                push_str(out, "true");
            } else {
                push_str(out, "false");
            }
        },
        JsonValue::Number(n) => {
            let t = number_text(n);
            push_str(out, t.as_str());
        },
        JsonValue::String(s) => {
            push_escaped(out, s.as_str(), delimiter);
        },
        JsonValue::Array(items) => {
            proof {
                lemma_array_model(*items);
            }
        },
        JsonValue::Object(members) => {
            proof {
                lemma_object_model(*members);
            }
        },
    }
}

/// The value of the first member with the key.
fn lookup<'a>(members: &'a Vec<(String, JsonValue)>, key: &String) -> (r: Option<&'a JsonValue>)
    ensures
        match r {
            Some(v) => v@ == member_value(members_model(members@), key@),
            None => member_value(members_model(members@), key@) == Json::Null,
        },
        r matches Some(v) ==> exists|k: int|
            0 <= k < members@.len() && members@[k].1@ == v@,
{
    let ghost mm = members_model(members@);
    let mut k: usize = 0;
    proof {
        assert(mm.skip(0) =~= mm);
    }
    while k < members.len()
        invariant
            k <= members@.len(),
            mm == members_model(members@),
            member_value(mm, key@) == member_value(mm.skip(k as int), key@),
        decreases members@.len() - k,
    {
        proof {
            assert(mm.skip(k as int).drop_first() =~= mm.skip(k + 1));
            assert(mm.skip(k as int)[0] == mm[k as int]);
        }
        if members[k].0 == *key {
            return Some(&members[k].1);
        }
        k = k + 1;
    }
    None
}

/// Where a key goes: after the first `p` keys, which come before it.
proof fn lemma_insert_key_at(key: Seq<char>, sorted: Seq<Seq<char>>, p: int)
    requires
        0 <= p <= sorted.len(),
        forall|k: int| 0 <= k < p ==> key_less(#[trigger] sorted[k], key),
        p < sorted.len() ==> !key_less(sorted[p], key),
    ensures
        insert_key(key, sorted) == if p < sorted.len() && sorted[p] == key {
            sorted
        } else {
            sorted.take(p).push(key) + sorted.skip(p)
        },
    decreases sorted.len(),
{
    if sorted.len() == 0 {
        assert(sorted.take(p).push(key) + sorted.skip(p) =~= seq![key]);
    } else if p == 0 {
        if sorted[0] != key {
            lemma_key_less_total(key, sorted[0]);
            assert(sorted.take(p).push(key) + sorted.skip(p) =~= seq![key] + sorted);
        }
    } else {
        let rest = sorted.drop_first();
        lemma_key_less_irreflexive(key);
        lemma_key_less_asymmetric(sorted[0], key);
        assert forall|k: int| 0 <= k < p - 1 implies key_less(#[trigger] rest[k], key) by {
            assert(rest[k] == sorted[k + 1]);
        }
        lemma_insert_key_at(key, rest, p - 1);
        if p < sorted.len() && sorted[p] == key {
            assert(seq![sorted[0]] + rest =~= sorted);
        } else {
            assert(seq![sorted[0]] + (rest.take(p - 1).push(key) + rest.skip(p - 1)) =~= sorted.take(
                p,
            ).push(key) + sorted.skip(p));
        }
    }
}

/// The names of columns held as strings.
pub open spec fn names(fields: Seq<String>) -> Seq<Seq<char>> {
    fields.map_values(|f: String| f@)
}

/// Adds a key to the columns, kept ascending, with the characters of each.
fn add_field(fields: &mut Vec<String>, chars: &mut Vec<Vec<char>>, key: &String)
    requires
        old(chars)@.len() == old(fields)@.len(),
        forall|k: int| 0 <= k < old(chars)@.len() ==> (#[trigger] old(chars)@[k])@ == old(fields)@[k]@,
    ensures
        names(final(fields)@) == insert_key(key@, names(old(fields)@)),
        final(chars)@.len() == final(fields)@.len(),
        forall|k: int| 0 <= k < final(chars)@.len() ==> (#[trigger] final(chars)@[k])@ == final(fields)@[k]@,
{
    let ghost before = names(fields@);
    let kc = str_chars(key.as_str());
    let mut p: usize = 0;
    while p < fields.len() && key_before(chars[p].as_slice(), kc.as_slice())
        invariant
            p <= fields@.len(),
            chars@.len() == fields@.len(),
            forall|k: int| 0 <= k < chars@.len() ==> (#[trigger] chars@[k])@ == fields@[k]@,
            before == names(fields@),
            kc@ == key@,
            forall|k: int| 0 <= k < p ==> key_less(#[trigger] before[k], key@),
        decreases fields@.len() - p,
    {
        p = p + 1;
    }
    proof {
        lemma_insert_key_at(key@, before, p as int);
    }
    if p < fields.len() && fields[p] == *key {
        return;
    }
    fields.insert(p, key.clone());
    chars.insert(p, kc);
    proof {
        assert(names(fields@) =~= before.take(p as int).push(key@) + before.skip(p as int));
        assert forall|k: int| 0 <= k < chars@.len() implies (#[trigger] chars@[k])@ == fields@[k]@ by {
            if k < p {
            } else if k > p {
            }
        }
    }
}

/// The columns of the rows: every key of every object row, once, ascending.
fn union_fields(rows: &Vec<JsonValue>) -> (r: Vec<String>)
    ensures
        names(r@) == table_fields(items_model(rows@)),
{
    let ghost rs = items_model(rows@);
    let mut fields: Vec<String> = Vec::new();
    let mut chars: Vec<Vec<char>> = Vec::new();
    let mut i: usize = 0;
    proof {
        assert(names(fields@) =~= table_fields(rs.take(0)));
    }
    while i < rows.len()
        invariant
            i <= rows@.len(),
            rs == items_model(rows@),
            names(fields@) == table_fields(rs.take(i as int)),
            chars@.len() == fields@.len(),
            forall|k: int| 0 <= k < chars@.len() ==> (#[trigger] chars@[k])@ == fields@[k]@,
        decreases rows@.len() - i,
    {
        let ghost start = names(fields@);
        proof {
            assert(rs.take(i + 1).drop_last() =~= rs.take(i as int));
            assert(rs.take(i + 1).last() == rows@[i as int]@);
        }
        match &rows[i] {
            JsonValue::Object(members) => {
                proof {
                    lemma_object_model(*members);
                }
                let ghost keys = member_keys(members_model(members@));
                let mut k: usize = 0;
                proof {
                    assert(keys.take(0) =~= Seq::<Seq<char>>::empty());
                }
                while k < members.len()
                    invariant
                        k <= members@.len(),
                        keys == member_keys(members_model(members@)),
                        names(fields@) == insert_keys(keys.take(k as int), start),
                        chars@.len() == fields@.len(),
                        forall|t: int| 0 <= t < chars@.len() ==> (#[trigger] chars@[t])@ == fields@[t]@,
                    decreases members@.len() - k,
                {
                    proof {
                        assert(keys.take(k + 1).drop_last() =~= keys.take(k as int));
                        assert(keys.take(k + 1).last() == members@[k as int].0@);
                    }
                    add_field(&mut fields, &mut chars, &members[k].0);
                    k = k + 1;
                }
                proof {
                    assert(keys.take(keys.len() as int) =~= keys);
                }
            },
            JsonValue::Array(items) => {
                proof {
                    lemma_array_model(*items);
                }
            },
            _ => {},
        }
        i = i + 1;
    }
    proof {
        assert(rs.take(rs.len() as int) =~= rs);
    }
    fields
}

/// Appends cells joined by tabs, one more cell after `count` cells.
proof fn lemma_join_tabs_step(cells: Seq<Seq<char>>, count: int)
    requires
        0 <= count < cells.len(),
    ensures
        join_tabs(cells.take(count + 1)) == join_tabs(cells.take(count)) + (if count == 0 {
            Seq::<char>::empty()
        } else {
            seq!['\t']
        }) + cells[count],
{
    assert(cells.take(count + 1).drop_last() =~= cells.take(count));
    if count == 0 {
        assert(Seq::<char>::empty() + Seq::<char>::empty() + cells[0] =~= cells[0]);
    }
}

/// Rows without problems are object rows with scalar values only.
pub proof fn lemma_rows_problem_none(rows: Seq<Json>)
    requires
        rows_problem(rows) is None,
    ensures
        forall|i: int| 0 <= i < rows.len() ==> #[trigger] row_problem(rows[i]) is None,
    decreases rows.len(),
{
    if rows.len() > 0 {
        lemma_rows_problem_none(rows.drop_last());
        assert forall|i: int| 0 <= i < rows.len() implies #[trigger] row_problem(rows[i]) is None by {
            if i < rows.len() - 1 {
                assert(rows.drop_last()[i] == rows[i]);
            }
        }
    }
}

/// The value for a key in members that hold no array or object is a scalar.
proof fn lemma_member_value_scalar(members: Seq<(Seq<char>, Json)>, key: Seq<char>)
    requires
        !has_nested_member(members),
    ensures
        !is_container(member_value(members, key)),
    decreases members.len(),
{
    if members.len() > 0 {
        assert(!is_container(members[0].1));
        let rest = members.drop_first();
        assert(!has_nested_member(rest)) by {
            if has_nested_member(rest) {
                let k = choose|k: int| 0 <= k < rest.len() && #[trigger] is_container(rest[k].1);
                assert(is_container(members[k + 1].1));
            }
        }
        lemma_member_value_scalar(rest, key);
    }
}

/// Appends the characters of a string.
fn push_string(out: &mut Vec<char>, s: &String)
    ensures
        final(out)@ == old(out)@ + s@,
{
    push_str(out, s.as_str());
}

/// The name of a table: `rows` for a top-level array, else the key of the
/// single-key object that holds it.
pub open spec fn table_name(j: Json) -> Seq<char> {
    match j {
        Json::Array(_) => "rows"@,
        Json::Object(members) => members[0].0,
        _ => Seq::empty(),
    }
}

/// The message for a document that holds no table.
pub open spec fn no_table_message() -> Seq<char> {
    "tabular output requires a top-level array or a single-key object containing an array"@
}

/// The table of a document: its name and its rows.
fn top_level_table(value: &JsonValue) -> (r: Result<(String, &Vec<JsonValue>), LlmFmtError>)
    ensures
        match r {
            Ok(table) => {
                &&& table_rows_of(value@) == Some(items_model(table.1@))
                &&& table.0@ == table_name(value@)
            },
            Err(e) => {
                &&& table_rows_of(value@) is None
                &&& e is Message
                &&& e->Message_0@ == no_table_message()
            },
        },
{
    match table_rows(value) {
        Some(rows) => {
            let name = match value {
                JsonValue::Object(members) => {
                    proof {
                        lemma_object_model(*members);
                    }
                    members[0].0.clone()
                },
                JsonValue::Array(items) => {
                    proof {
                        lemma_array_model(*items);
                    }
                    "rows".to_owned()
                },
                _ => "rows".to_owned(),
            };
            Ok((name, rows))
        },
        None => Err(
            LlmFmtError::Message(
                "tabular output requires a top-level array or a single-key object containing an array".to_owned(),
            ),
        ),
    }
}

/// Writes a table as TSV: a header line of the columns (every key of every
/// row, ascending) and a line per row, cells separated by tabs.
fn emit_tsv(value: &JsonValue) -> (r: Result<String, LlmFmtError>)
    ensures
        r is Ok <==> tsv_problem(value@) is None,
        r matches Ok(s) ==> s@ == tsv_text(value@),
        r matches Err(e) ==> e is Message && Some(e->Message_0@) == tsv_problem(value@),
{
    match validate_tsv_value(value) {
        Err(e) => {
            return Err(e);
        },
        Ok(()) => {},
    }
    let rows = match top_level_table(value) {
        Ok((_name, rows)) => rows,
        Err(e) => {
            return Err(e);
        },
    };
    let ghost rs = items_model(rows@);
    proof {
        lemma_rows_problem_none(rs);
    }
    let fields = union_fields(rows);
    let ghost fs = names(fields@);
    let mut out: Vec<char> = Vec::new();
    let mut k: usize = 0;
    while k < fields.len()
        invariant
            k <= fields@.len(),
            fs == names(fields@),
            out@ == join_tabs(fs.take(k as int)),
        decreases fields@.len() - k,
    {
        if k > 0 {
            out.push('\t');
        }
        push_string(&mut out, &fields[k]);
        proof {
            lemma_join_tabs_step(fs, k as int);
        }
        k = k + 1;
    }
    proof {
        assert(fs.take(fs.len() as int) =~= fs);
    }
    out.push('\n');
    let mut i: usize = 0;
    proof {
        assert(rs.take(0) =~= Seq::<Json>::empty());
        assert(out@ =~= join_tabs(fs) + seq!['\n'] + tsv_rows(rs.take(0), fs));
    }
    while i < rows.len()
        invariant
            i <= rows@.len(),
            rs == items_model(rows@),
            fs == names(fields@),
            forall|t: int| 0 <= t < rs.len() ==> #[trigger] row_problem(rs[t]) is None,
            out@ == join_tabs(fs) + seq!['\n'] + tsv_rows(rs.take(i as int), fs),
        decreases rows@.len() - i,
    {
        assert(row_problem(rs[i as int]) is None);
        let members = match &rows[i] {
            JsonValue::Object(members) => members,
            JsonValue::Array(items) => {
                proof {
                    lemma_array_model(*items);
                }
                return Err(LlmFmtError::Message("tsv output requires object rows".to_owned()));
            },
            _ => {
                return Err(LlmFmtError::Message("tsv output requires object rows".to_owned()));
            },
        };
        proof {
            lemma_object_model(*members);
        }
        let ghost mm = members_model(members@);
        let ghost cells = row_cells(rs[i as int], fs);
        let ghost line_start = out@;
        let mut k: usize = 0;
        while k < fields.len()
            invariant
                k <= fields@.len(),
                fs == names(fields@),
                cells == row_cells(Json::Object(mm), fs),
                mm == members_model(members@),
                !has_nested_member(mm),
                out@ == line_start + join_tabs(cells.take(k as int)),
            decreases fields@.len() - k,
        {
            if k > 0 {
                out.push('\t');
            }
            proof {
                lemma_member_value_scalar(mm, fs[k as int]);
            }
            match lookup(members, &fields[k]) {
                Some(v) => {
                    encode_scalar(&mut out, v, '\t');
                },
                None => {},
            }
            proof {
                lemma_join_tabs_step(cells, k as int);
                assert(out@ =~= line_start + join_tabs(cells.take(k + 1)));
            }
            k = k + 1;
        }
        out.push('\n');
        proof {
            assert(cells.take(cells.len() as int) =~= cells);
            assert(rs.take(i + 1).drop_last() =~= rs.take(i as int));
            assert(rs.take(i + 1).last() == rs[i as int]);
            assert(out@ =~= join_tabs(fs) + seq!['\n'] + tsv_rows(rs.take(i + 1), fs));
        }
        i = i + 1;
    }
    proof {
        assert(rs.take(rs.len() as int) =~= rs);
    }
    Ok(chars_to_string(out.as_slice()))
}

/// What `emit_output` writes for the document in the format, where it can
/// write it.
pub open spec fn emitted(format: OutputFormat, j: Json) -> Option<Seq<char>> {
    match format {
        OutputFormat::Toon => toon_text(j),
        OutputFormat::Tsv => if tsv_problem(j) is None {
            Some(tsv_text(j))
        } else {
            None
        },
        OutputFormat::Yaml => yaml_text(j),
        OutputFormat::JsonCompact => json_compact_text(j),
    }
}

/// Writes the document as TOON with the official encoder.
fn emit_toon(value: &JsonValue) -> (r: Result<String, LlmFmtError>)
    requires
        wf_json(value@),
    ensures
        r is Ok <==> toon_text(value@) is Some,
        r matches Ok(s) ==> toon_text(value@) == Some(s@),
        r matches Err(e) ==> e is Toon,
{
    let v = to_serde(value);
    match toon_encode(&v) {
        Ok(s) => Ok(s),
        Err(e) => Err(LlmFmtError::Toon(e)),
    }
}

/// Writes the document in the format: TOON, YAML and compact JSON by their
/// codec crates, TSV by [`emit_tsv`]'s rules.
pub fn emit_output(format: OutputFormat, value: &JsonValue) -> (r: Result<String, LlmFmtError>)
    requires
        wf_json(value@),
    ensures
        r is Ok <==> emitted(format, value@) is Some,
        r matches Ok(s) ==> emitted(format, value@) == Some(s@),
        r matches Err(e) ==> match format {
            OutputFormat::Toon => e is Toon,
            OutputFormat::Tsv => e is Message && Some(e->Message_0@) == tsv_problem(value@),
            OutputFormat::Yaml => e is Yaml,
            OutputFormat::JsonCompact => e is Json,
        },
{
    match format {
        OutputFormat::Toon => emit_toon(value),
        OutputFormat::Tsv => emit_tsv(value),
        OutputFormat::Yaml => {
            let v = to_serde(value);
            match yaml_to_string(&v) {
                Ok(s) => Ok(s),
                Err(e) => Err(LlmFmtError::Yaml(e)),
            }
        },
        OutputFormat::JsonCompact => {
            let v = to_serde(value);
            match json_to_string(&v) {
                Ok(s) => Ok(s),
                Err(e) => Err(LlmFmtError::Json(e)),
            }
        },
    }
}

/// The payload in a fenced code block labelled with the format: the fence,
/// the label, a line feed, the text without trailing white space, a line
/// feed and the closing fence with its own line feed.
pub open spec fn wrapped(format: OutputFormat, rendered: Seq<char>) -> Seq<char> {
    "```"@ + output_label(format) + seq!['\n'] + trim_end(rendered) + "\n```\n"@
}

/// Wraps rendered output in a fenced code block.
pub fn wrap_output(format: OutputFormat, rendered: &str) -> (r: String)
    ensures
        r@ == wrapped(format, rendered@),
{
    let mut out: Vec<char> = Vec::new();
    push_str(&mut out, "```");
    push_str(&mut out, format.label());
    out.push('\n');
    let body = str_chars(rendered);
    let trimmed = trim_end_chars(body.as_slice());
    push_all(&mut out, trimmed.as_slice());
    push_str(&mut out, "\n```\n");
    proof {
        assert(out@ =~= wrapped(format, rendered@));
    }
    chars_to_string(out.as_slice())
}

// ---------------------------------------------------------------------------
// Laws
// ---------------------------------------------------------------------------

/// Canonicalization sorts the keys of every object (strictly, since keys
/// are distinct), keeps the document well-formed, and changes nothing more
/// when applied again.
pub proof fn law_canonical_is_sorted_and_stable(j: Json)
    requires
        wf_json(j),
    ensures
        wf_json(canonical(j)),
        sorted_json(canonical(j)),
        canonical(canonical(j)) == canonical(j),
{
    lemma_canonical_sorted(j);
    lemma_canonical_fixed(canonical(j));
}

/// Canonicalizing an object only reorders its members, each value in
/// canonical form: no member is lost or added.
pub proof fn law_canonical_keeps_members(members: Seq<(Seq<char>, Json)>)
    ensures
        canonical(Json::Object(members))->Object_0.len() == members.len(),
        forall|x: (Seq<char>, Json)| #[trigger]
            canonical(Json::Object(members))->Object_0.contains(x) <==> canonical_members(
                members,
            ).contains(x),
{
    lemma_sort_members_contents(canonical_members(members));
}

/// Keys in strictly ascending order.
pub open spec fn strictly_ascending(keys: Seq<Seq<char>>) -> bool {
    forall|i: int, j: int|
        0 <= i < j < keys.len() ==> key_less(#[trigger] keys[i], #[trigger] keys[j])
}

proof fn lemma_insert_key_props(key: Seq<char>, sorted: Seq<Seq<char>>)
    requires
        strictly_ascending(sorted),
    ensures
        strictly_ascending(insert_key(key, sorted)),
        forall|x: Seq<char>| #[trigger]
            insert_key(key, sorted).contains(x) <==> (x == key || sorted.contains(x)),
    decreases sorted.len(),
{
    let r = insert_key(key, sorted);
    if sorted.len() == 0 {
        assert forall|x: Seq<char>| #[trigger] r.contains(x) <==> (x == key || sorted.contains(x)) by {
            if r.contains(x) {
                assert(r[0] == x);
            }
            if x == key {
                assert(r[0] == key);
            }
        }
    } else if sorted[0] == key {
    } else if key_less(key, sorted[0]) {
        assert forall|i: int, j: int| 0 <= i < j < r.len() implies key_less(
            #[trigger] r[i],
            #[trigger] r[j],
        ) by {
            if i == 0 {
                if j > 1 {
                    lemma_key_less_transitive(key, sorted[0], sorted[j - 1]);
                }
            } else {
                assert(r[i] == sorted[i - 1] && r[j] == sorted[j - 1]);
            }
        }
        assert forall|x: Seq<char>| #[trigger] r.contains(x) <==> (x == key || sorted.contains(x)) by {
            if r.contains(x) {
                let k = choose|k: int| 0 <= k < r.len() && r[k] == x;
                if k > 0 {
                    assert(sorted[k - 1] == x);
                }
            }
            if x == key {
                assert(r[0] == key);
            }
            if sorted.contains(x) {
                let k = choose|k: int| 0 <= k < sorted.len() && sorted[k] == x;
                assert(r[k + 1] == x);
            }
        }
    } else {
        let rest = sorted.drop_first();
        assert(strictly_ascending(rest)) by {
            assert forall|i: int, j: int| 0 <= i < j < rest.len() implies key_less(
                #[trigger] rest[i],
                #[trigger] rest[j],
            ) by {
                assert(rest[i] == sorted[i + 1] && rest[j] == sorted[j + 1]);
            }
        }
        lemma_insert_key_props(key, rest);
        let t = insert_key(key, rest);
        assert(r == seq![sorted[0]] + t);
        lemma_key_less_total(key, sorted[0]);
        assert forall|i: int, j: int| 0 <= i < j < r.len() implies key_less(
            #[trigger] r[i],
            #[trigger] r[j],
        ) by {
            if i == 0 {
                assert(r[j] == t[j - 1]);
                assert(t.contains(t[j - 1]));
                if t[j - 1] != key {
                    let q = choose|q: int| 0 <= q < rest.len() && rest[q] == t[j - 1];
                    assert(sorted[q + 1] == rest[q]);
                }
            } else {
                assert(r[i] == t[i - 1] && r[j] == t[j - 1]);
            }
        }
        assert forall|x: Seq<char>| #[trigger] r.contains(x) <==> (x == key || sorted.contains(x)) by {
            if r.contains(x) {
                let k = choose|k: int| 0 <= k < r.len() && r[k] == x;
                if k > 0 {
                    assert(t[k - 1] == x);
                    assert(t.contains(x));
                    if rest.contains(x) {
                        let q = choose|q: int| 0 <= q < rest.len() && rest[q] == x;
                        assert(sorted[q + 1] == x);
                    }
                } else {
                    assert(sorted[0] == x);
                }
            }
            if x == key {
                assert(t.contains(key));
                let q = choose|q: int| 0 <= q < t.len() && t[q] == key;
                assert(r[q + 1] == key);
            }
            if sorted.contains(x) {
                let k = choose|k: int| 0 <= k < sorted.len() && sorted[k] == x;
                if k == 0 {
                    assert(r[0] == x);
                } else {
                    assert(rest[k - 1] == x);
                    assert(t.contains(x));
                    let q = choose|q: int| 0 <= q < t.len() && t[q] == x;
                    assert(r[q + 1] == x);
                }
            }
        }
    }
}

proof fn lemma_insert_keys_props(keys: Seq<Seq<char>>, sorted: Seq<Seq<char>>)
    requires
        strictly_ascending(sorted),
    ensures
        strictly_ascending(insert_keys(keys, sorted)),
        forall|x: Seq<char>| #[trigger]
            insert_keys(keys, sorted).contains(x) <==> (keys.contains(x) || sorted.contains(x)),
    decreases keys.len(),
{
    if keys.len() > 0 {
        let init = keys.drop_last();
        lemma_insert_keys_props(init, sorted);
        lemma_insert_key_props(keys.last(), insert_keys(init, sorted));
        assert forall|x: Seq<char>| #[trigger]
            insert_keys(keys, sorted).contains(x) <==> (keys.contains(x) || sorted.contains(x)) by {
            if init.contains(x) {
                let k = choose|k: int| 0 <= k < init.len() && init[k] == x;
                assert(keys[k] == x);
            }
            if keys.contains(x) {
                let k = choose|k: int| 0 <= k < keys.len() && keys[k] == x;
                if k < keys.len() - 1 {
                    assert(init[k] == x);
                }
            }
        }
    }
}

/// The columns of a TSV table are the keys of all its rows, each once, in
/// ascending order.
pub proof fn law_tsv_columns(rows: Seq<Json>)
    requires
        all_objects(rows),
    ensures
        strictly_ascending(table_fields(rows)),
        table_fields(rows).to_set() == keys_union(rows),
    decreases rows.len(),
{
    if rows.len() > 0 {
        let init = rows.drop_last();
        assert(all_objects(init)) by {
            assert forall|i: int| 0 <= i < init.len() implies #[trigger] init[i] is Object by {
                assert(init[i] == rows[i]);
            }
        }
        law_tsv_columns(init);
        let keys = object_keys(rows.last());
        assert(rows.last() is Object);
        lemma_insert_keys_props(keys, table_fields(init));
        assert(table_fields(rows).to_set() =~= keys_union(rows));
    }
}

/// Two sequences of members whose keys ascend strictly and which hold the
/// same members are the same sequence.
proof fn lemma_ascending_unique(a: Seq<(Seq<char>, Json)>, b: Seq<(Seq<char>, Json)>)
    requires
        keys_ascending(a),
        keys_ascending(b),
        forall|x: (Seq<char>, Json)| #[trigger] a.contains(x) <==> b.contains(x),
    ensures
        a == b,
    decreases a.len() + b.len(),
{
    if a.len() == 0 || b.len() == 0 {
        if a.len() > 0 {
            assert(a.contains(a[0]));
            assert(b.contains(a[0]));
        }
        if b.len() > 0 {
            assert(b.contains(b[0]));
            assert(a.contains(b[0]));
        }
        assert(a =~= b);
    } else {
        assert(a.contains(a[0]) && b.contains(b[0]));
        assert(a.contains(b[0]) && b.contains(a[0]));
        let i = choose|i: int| 0 <= i < a.len() && a[i] == b[0];
        let j = choose|j: int| 0 <= j < b.len() && b[j] == a[0];
        if i != 0 && j != 0 {
            assert(key_less(a[0].0, a[i].0));
            assert(key_less(b[0].0, b[j].0));
            lemma_key_less_asymmetric(a[0].0, b[0].0);
        }
        assert(a[0] == b[0]);
        let a1 = a.drop_first();
        let b1 = b.drop_first();
        assert(keys_ascending(a1)) by {
            assert forall|p: int, q: int| 0 <= p < q < a1.len() implies key_less(
                #[trigger] a1[p].0,
                #[trigger] a1[q].0,
            ) by {
                assert(a1[p] == a[p + 1] && a1[q] == a[q + 1]);
            }
        }
        assert(keys_ascending(b1)) by {
            assert forall|p: int, q: int| 0 <= p < q < b1.len() implies key_less(
                #[trigger] b1[p].0,
                #[trigger] b1[q].0,
            ) by {
                assert(b1[p] == b[p + 1] && b1[q] == b[q + 1]);
            }
        }
        assert forall|x: (Seq<char>, Json)| #[trigger] a1.contains(x) <==> b1.contains(x) by {
            if a1.contains(x) {
                let k = choose|k: int| 0 <= k < a1.len() && a1[k] == x;
                assert(a[k + 1] == x);
                assert(a.contains(x));
                assert(b.contains(x));
                if x == a[0] {
                    assert(key_less(a[0].0, a[k + 1].0));
                    lemma_key_less_irreflexive(a[0].0);
                }
                let m = choose|m: int| 0 <= m < b.len() && b[m] == x;
                assert(m != 0);
                assert(b1[m - 1] == x);
            }
            if b1.contains(x) {
                let k = choose|k: int| 0 <= k < b1.len() && b1[k] == x;
                assert(b[k + 1] == x);
                assert(b.contains(x));
                assert(a.contains(x));
                if x == b[0] {
                    assert(key_less(b[0].0, b[k + 1].0));
                    lemma_key_less_irreflexive(b[0].0);
                }
                let m = choose|m: int| 0 <= m < a.len() && a[m] == x;
                assert(m != 0);
                assert(a1[m - 1] == x);
            }
        }
        lemma_ascending_unique(a1, b1);
        assert(a =~= seq![a[0]] + a1);
        assert(b =~= seq![b[0]] + b1);
    }
}

/// The canonical form of an object does not depend on the order in which
/// its members were written: objects with the same members (keys distinct)
/// have the same canonical form.
pub proof fn law_canonical_ignores_member_order(
    first: Seq<(Seq<char>, Json)>,
    second: Seq<(Seq<char>, Json)>,
)
    requires
        distinct_keys(first),
        distinct_keys(second),
        forall|x: (Seq<char>, Json)| #[trigger] first.contains(x) <==> second.contains(x),
    ensures
        canonical(Json::Object(first)) == canonical(Json::Object(second)),
{
    let c1 = canonical_members(first);
    let c2 = canonical_members(second);
    assert(distinct_keys(c1)) by {
        assert forall|a: int, b: int|
            0 <= a < c1.len() && 0 <= b < c1.len() && a != b implies #[trigger] c1[a].0
            != #[trigger] c1[b].0 by {
            assert(c1[a].0 == first[a].0 && c1[b].0 == first[b].0);
        }
    }
    assert(distinct_keys(c2)) by {
        assert forall|a: int, b: int|
            0 <= a < c2.len() && 0 <= b < c2.len() && a != b implies #[trigger] c2[a].0
            != #[trigger] c2[b].0 by {
            assert(c2[a].0 == second[a].0 && c2[b].0 == second[b].0);
        }
    }
    assert forall|y: (Seq<char>, Json)| #[trigger] c1.contains(y) <==> c2.contains(y) by {
        if c1.contains(y) {
            let i = choose|i: int| 0 <= i < c1.len() && c1[i] == y;
            assert(first.contains(first[i]));
            assert(second.contains(first[i]));
            let j = choose|j: int| 0 <= j < second.len() && second[j] == first[i];
            assert(c2[j] == y);
        }
        if c2.contains(y) {
            let i = choose|i: int| 0 <= i < c2.len() && c2[i] == y;
            assert(second.contains(second[i]));
            assert(first.contains(second[i]));
            let j = choose|j: int| 0 <= j < first.len() && first[j] == second[i];
            assert(c1[j] == y);
        }
    }
    lemma_sort_members_ascending(c1);
    lemma_sort_members_ascending(c2);
    lemma_sort_members_contents(c1);
    lemma_sort_members_contents(c2);
    lemma_ascending_unique(sort_members(c1), sort_members(c2));
}

/// Escaping distributes over concatenation.
proof fn lemma_escaped_concat(a: Seq<char>, b: Seq<char>, delimiter: char)
    ensures
        escaped(a + b, delimiter) == escaped(a, delimiter) + escaped(b, delimiter),
    decreases b.len(),
{
    if b.len() == 0 {
        assert(a + b =~= a);
        assert(escaped(a, delimiter) + escaped(b, delimiter) =~= escaped(a, delimiter));
    } else {
        lemma_escaped_concat(a, b.drop_last(), delimiter);
        assert((a + b).drop_last() =~= a + b.drop_last());
        assert((a + b).last() == b.last());
        assert(escaped(a, delimiter) + escaped(b.drop_last(), delimiter) + escape_char(
            b.last(),
            delimiter,
        ) =~= escaped(a, delimiter) + (escaped(b.drop_last(), delimiter) + escape_char(
            b.last(),
            delimiter,
        )));
    }
}

/// Escaping read from the front: the first character's escape, then the rest.
proof fn lemma_escaped_front(s: Seq<char>, delimiter: char)
    requires
        s.len() > 0,
    ensures
        escaped(s, delimiter) == escape_char(s[0], delimiter) + escaped(s.drop_first(), delimiter),
{
    lemma_escaped_concat(seq![s[0]], s.drop_first(), delimiter);
    assert(seq![s[0]] + s.drop_first() =~= s);
    let one = seq![s[0]];
    assert(one.drop_last() =~= Seq::<char>::empty());
    assert(one.last() == s[0]);
    assert(escaped(Seq::<char>::empty(), delimiter) == Seq::<char>::empty());
    assert(escaped(one, delimiter) == escaped(one.drop_last(), delimiter) + escape_char(
        s[0],
        delimiter,
    ));
    assert(escaped(one, delimiter) =~= escape_char(s[0], delimiter));
}

/// The escape of a character is one or two characters long and holds
/// neither a line feed nor a tab.
proof fn lemma_escape_char_shape(c: char, delimiter: char)
    ensures
        1 <= escape_char(c, delimiter).len() <= 2,
        !escape_char(c, delimiter).contains('\n'),
        !escape_char(c, delimiter).contains('\t'),
{
    let e = escape_char(c, delimiter);
    if e.contains('\n') {
        let k = choose|k: int| 0 <= k < e.len() && e[k] == '\n';
    }
    if e.contains('\t') {
        let k = choose|k: int| 0 <= k < e.len() && e[k] == '\t';
    }
}

/// Where the escapes of two characters begin two equal texts, the
/// characters are equal (the delimiter being neither `n` nor `t`).
proof fn lemma_escape_char_prefix(
    c1: char,
    c2: char,
    delimiter: char,
    r1: Seq<char>,
    r2: Seq<char>,
)
    requires
        delimiter != 'n',
        delimiter != 't',
        escape_char(c1, delimiter) + r1 == escape_char(c2, delimiter) + r2,
    ensures
        c1 == c2,
{
    let e1 = escape_char(c1, delimiter);
    let e2 = escape_char(c2, delimiter);
    let t = e1 + r1;
    assert(t[0] == e1[0]);
    assert(t[0] == e2[0]);
    if e1.len() == 2 {
        assert(t[1] == e1[1]);
    }
    if e2.len() == 2 {
        assert(t[1] == e2[1]);
    }
}

/// A TSV cell holds no line feed and no tab: escaping removes both.
pub proof fn law_escaped_has_no_line_breaks(s: Seq<char>, delimiter: char)
    ensures
        !escaped(s, delimiter).contains('\n'),
        !escaped(s, delimiter).contains('\t'),
    decreases s.len(),
{
    if s.len() > 0 {
        law_escaped_has_no_line_breaks(s.drop_last(), delimiter);
        lemma_escape_char_shape(s.last(), delimiter);
        let a = escaped(s.drop_last(), delimiter);
        let b = escape_char(s.last(), delimiter);
        assert forall|c: char| (c == '\n' || c == '\t') implies !(a + b).contains(c) by {
            if (a + b).contains(c) {
                let k = choose|k: int| 0 <= k < (a + b).len() && (a + b)[k] == c;
                if k < a.len() {
                    assert(a[k] == c);
                } else {
                    assert(b[k - a.len()] == c);
                }
            }
        }
    }
}

/// Escaping is one-to-one when the delimiter is neither `n` nor `t`: two
/// texts with the same escaped form are the same text.
pub proof fn law_escaped_is_one_to_one(s1: Seq<char>, s2: Seq<char>, delimiter: char)
    requires
        delimiter != 'n',
        delimiter != 't',
        escaped(s1, delimiter) == escaped(s2, delimiter),
    ensures
        s1 == s2,
    decreases s1.len(),
{
    if s1.len() == 0 || s2.len() == 0 {
        if s1.len() > 0 {
            lemma_escaped_front(s1, delimiter);
            lemma_escape_char_shape(s1[0], delimiter);
        }
        if s2.len() > 0 {
            lemma_escaped_front(s2, delimiter);
            lemma_escape_char_shape(s2[0], delimiter);
        }
        assert(s1 =~= s2);
    } else {
        lemma_escaped_front(s1, delimiter);
        lemma_escaped_front(s2, delimiter);
        let r1 = escaped(s1.drop_first(), delimiter);
        let r2 = escaped(s2.drop_first(), delimiter);
        lemma_escape_char_prefix(s1[0], s2[0], delimiter, r1, r2);
        let e = escape_char(s1[0], delimiter);
        assert(r1 =~= (e + r1).subrange(e.len() as int, (e + r1).len() as int));
        assert(r2 =~= (e + r2).subrange(e.len() as int, (e + r2).len() as int));
        law_escaped_is_one_to_one(s1.drop_first(), s2.drop_first(), delimiter);
        assert(s1 =~= seq![s1[0]] + s1.drop_first());
        assert(s2 =~= seq![s2[0]] + s2.drop_first());
    }
}

/// A text without line feed, tab, backslash or the delimiter is its own
/// escaped form.
proof fn lemma_escaped_plain(s: Seq<char>, delimiter: char)
    requires
        !s.contains('\n'),
        !s.contains('\t'),
        !s.contains('\\'),
        !s.contains(delimiter),
    ensures
        escaped(s, delimiter) == s,
    decreases s.len(),
{
    if s.len() > 0 {
        let init = s.drop_last();
        assert forall|c: char| init.contains(c) implies s.contains(c) by {
            let k = choose|k: int| 0 <= k < init.len() && init[k] == c;
            assert(s[k] == c);
        }
        assert(s.contains(s.last()));
        lemma_escaped_plain(init, delimiter);
        assert(init + seq![s.last()] =~= s);
    }
}

/// What a TSV cell holds: nothing for a missing key or null, `true` or
/// `false`, a number as it displays, and a string escaped with the tab as
/// delimiter, so that a string without line feed, tab or backslash appears
/// in its cell unchanged.
pub proof fn law_tsv_cells(row: Json, fields: Seq<Seq<char>>, i: int)
    requires
        row is Object,
        0 <= i < fields.len(),
    ensures
        ({
            let cell = row_cells(row, fields)[i];
            match member_value(row->Object_0, fields[i]) {
                Json::Null => cell == Seq::<char>::empty(),
                Json::Bool(b) => cell == if b {
                    "true"@
                } else {
                    "false"@
                },
                Json::Number(n) => cell == number_display(n),
                Json::Str(s) => {
                    &&& cell == escaped(s, '\t')
                    &&& (!s.contains('\n') && !s.contains('\t') && !s.contains('\\'))
                        ==> cell == s
                },
                _ => true,
            }
        }),
        row_cells(row, fields).len() == fields.len(),
{
    match member_value(row->Object_0, fields[i]) {
        Json::Str(s) => {
            if !s.contains('\n') && !s.contains('\t') && !s.contains('\\') {
                lemma_escaped_plain(s, '\t');
            }
        },
        _ => {},
    }
}

/// The value for a key is that of the member with the key, and null where
/// no member has it.
pub proof fn law_member_value(members: Seq<(Seq<char>, Json)>, key: Seq<char>, k: int)
    requires
        distinct_keys(members),
        0 <= k < members.len(),
        members[k].0 == key,
    ensures
        member_value(members, key) == members[k].1,
    decreases members.len(),
{
    if k > 0 {
        let rest = members.drop_first();
        assert(members[0].0 != members[k].0);
        assert(distinct_keys(rest)) by {
            assert forall|a: int, b: int|
                0 <= a < rest.len() && 0 <= b < rest.len() && a != b implies #[trigger] rest[a].0
                != #[trigger] rest[b].0 by {
                assert(rest[a] == members[a + 1] && rest[b] == members[b + 1]);
            }
        }
        assert(rest[k - 1] == members[k]);
        law_member_value(rest, key, k - 1);
    }
}

} // verus!
