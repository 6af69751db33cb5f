//! The hardware and installed-software snapshot.
//!
//! The host reads the system summary and, on Windows, the uninstall entries
//! of the registry; this module picks the entries that Windows itself lists
//! as installed programs, sorts them by name, and puts them into the
//! snapshot.
use vstd::prelude::*;
use crate::json::{
    get, jstr, json_str, lemma_lookup_absent, lemma_lookup_found, lemma_view_fields, push_field,
    push_item, view_fields, view_items, Json, JsonView,
};
use crate::text::{lemma_name_le_total, lemma_name_le_trans, name_le, name_leq, str_eq};

verus! {

/// What the host reads of one uninstall entry of the registry: each value,
/// if the entry has it (and it has the expected type).
pub struct RegistryEntry {
    pub system_component: Option<u32>,
    pub display_name: Option<String>,
    pub display_version: Option<String>,
}

/// An installed program: its name and version.
pub struct Software {
    pub name: String,
    pub version: String,
}

pub open spec fn software_view(s: Seq<Software>) -> Seq<(Seq<char>, Seq<char>)> {
    s.map_values(|a: Software| (a.name@, a.version@))
}

/// The text of an optional string value; empty when it is missing.
pub open spec fn text_or_empty(v: Option<String>) -> Seq<char> {
    match v {
        Some(s) => s@,
        None => Seq::empty(),
    }
}

/// Whether an entry is listed: hidden updates and redistributables set
/// `SystemComponent` to 1, and entries without a name are not programs.
pub open spec fn is_listed(e: RegistryEntry) -> bool {
    !(e.system_component == Some(1u32)) && text_or_empty(e.display_name).len() > 0
}

/// The listed entries, name and version, in the order read.
pub open spec fn listed(entries: Seq<RegistryEntry>) -> Seq<(Seq<char>, Seq<char>)>
    decreases entries.len(),
{
    if entries.len() == 0 {
        Seq::empty()
    } else {
        let rest = listed(entries.drop_last());
        let e = entries.last();
        if is_listed(e) {
            rest.push((text_or_empty(e.display_name), text_or_empty(e.display_version)))
        } else {
            rest
        }
    }
}

/// `x` placed into a list sorted by name, after every item whose name does
/// not come later.
pub open spec fn insert_by_name(sorted: Seq<(Seq<char>, Seq<char>)>, x: (Seq<char>, Seq<char>)) -> Seq<
    (Seq<char>, Seq<char>),
>
    decreases sorted.len(),
{
    if sorted.len() == 0 {
        seq![x]
    } else if name_le(sorted.last().0, x.0) {
        sorted.push(x)
    } else {
        insert_by_name(sorted.drop_last(), x).push(sorted.last())
    }
}

/// The items stably sorted by name: items with equal names keep their order.
/// This is what any stable sort by name, such as `slice::sort_by`, gives.
pub open spec fn sort_by_name(items: Seq<(Seq<char>, Seq<char>)>) -> Seq<(Seq<char>, Seq<char>)>
    decreases items.len(),
{
    if items.len() == 0 {
        Seq::empty()
    } else {
        insert_by_name(sort_by_name(items.drop_last()), items.last())
    }
}

/// The JSON form of an installed program.
pub open spec fn software_json(s: (Seq<char>, Seq<char>)) -> JsonView {
    JsonView::Object(seq![("name"@, jstr(s.0)), ("version"@, jstr(s.1))])
}

proof fn lemma_insert_at(sorted: Seq<(Seq<char>, Seq<char>)>, x: (Seq<char>, Seq<char>), j: int)
    requires
        0 <= j <= sorted.len(),
        forall|k: int| j <= k < sorted.len() ==> !name_le(#[trigger] sorted[k].0, x.0),
        j == 0 || name_le(sorted[j - 1].0, x.0),
    ensures
        insert_by_name(sorted, x) == sorted.take(j).push(x) + sorted.skip(j),
    decreases sorted.len(),
{
    if sorted.len() == j {
        if j == 0 {
            assert(sorted.take(0).push(x) + sorted.skip(0) =~= seq![x]);
        } else {
            assert(sorted.take(j).push(x) + sorted.skip(j) =~= sorted.push(x));
        }
    } else {
        let init = sorted.drop_last();
        assert forall|k: int| j <= k < init.len() implies !name_le(#[trigger] init[k].0, x.0) by {
            assert(init[k] == sorted[k]);
        }
        lemma_insert_at(init, x, j);
        assert(sorted.take(j).push(x) + sorted.skip(j) =~= (init.take(j).push(x) + init.skip(j)).push(
            sorted.last(),
        ));
    }
}

/// The programs that Windows lists as installed, from the uninstall entries
/// read, sorted by name.
pub fn installed_software(entries: &Vec<RegistryEntry>) -> (r: Vec<Json>)
    ensures
        view_items(r@) == sort_by_name(listed(entries@)).map_values(
            |s: (Seq<char>, Seq<char>)| software_json(s),
        ),
{
    let mut sorted: Vec<Software> = Vec::new();
    let mut i: usize = 0;
    while i < entries.len()
        invariant
            i <= entries@.len(),
            software_view(sorted@) == sort_by_name(listed(entries@.take(i as int))),
        decreases entries@.len() - i,
    {
        assert(entries@.take(i + 1).drop_last() =~= entries@.take(i as int));
        assert(entries@.take(i + 1).last() == entries@[i as int]);
        let ghost prev = listed(entries@.take(i as int));
        let e = &entries[i];
        let hidden = match e.system_component {
            Some(v) => v == 1,
            None => false,
        };
        let name = match &e.display_name {
            Some(n) => n.clone(),
            None => String::new(),
        };
        if !hidden && !name.as_str().is_empty() {
            let version = match &e.display_version {
                Some(v) => v.clone(),
                None => String::new(),
            };
            let ghost before = software_view(sorted@);
            let ghost item = (name@, version@);
            let mut j: usize = sorted.len();
            while j > 0 && !name_leq(sorted[j - 1].name.as_str(), name.as_str())
                invariant
                    j <= sorted@.len(),
                    before == software_view(sorted@),
                    item == (name@, version@),
                    forall|k: int| j <= k < before.len() ==> !name_le(#[trigger] before[k].0, item.0),
                decreases j,
            {
                j = j - 1;
            }
            proof {
                lemma_insert_at(before, item, j as int);
            }
            sorted.insert(j, Software { name, version });
            assert(software_view(sorted@) =~= before.take(j as int).push(item) + before.skip(j as int));
            assert(listed(entries@.take(i + 1)) == prev.push(item));
            assert(prev.push(item).drop_last() =~= prev);
        }
        i = i + 1;
    }
    assert(entries@.take(entries@.len() as int) =~= entries@);
    let ghost all = software_view(sorted@);
    let mut out: Vec<Json> = Vec::new();
    let mut k: usize = 0;
    while k < sorted.len()
        invariant
            k <= sorted@.len(),
            all == software_view(sorted@),
            view_items(out@) == all.take(k as int).map_values(|s: (Seq<char>, Seq<char>)| software_json(s)),
        decreases sorted@.len() - k,
    {
        let mut fields: Vec<(String, Json)> = Vec::new();
        push_field(&mut fields, "name", json_str(sorted[k].name.as_str()));
        push_field(&mut fields, "version", json_str(sorted[k].version.as_str()));
        assert(view_fields(fields@) =~= software_json(all[k as int])->Object_0);
        push_item(&mut out, Json::Object(fields));
        assert(all.take(k + 1).map_values(|s: (Seq<char>, Seq<char>)| software_json(s)) =~= all.take(
            k as int,
        ).map_values(|s: (Seq<char>, Seq<char>)| software_json(s)).push(software_json(all[k as int])));
        k = k + 1;
    }
    assert(all.take(all.len() as int) =~= all);
    out
}

/// The value after setting member `key` of an object to `value`: it
/// replaces the member of that name, or is added at the end; `null` becomes
/// an object with that one member. This is what assigning to
/// `value[key]` does.
pub open spec fn set_member(v: JsonView, key: Seq<char>, value: JsonView) -> JsonView {
    match v {
        JsonView::Object(fields) => JsonView::Object(
            match member_position(fields, key) {
                Some(i) => fields.update(i, (key, value)),
                None => fields.push((key, value)),
            },
        ),
        _ => JsonView::Object(seq![(key, value)]),
    }
}

/// Where the first member named `key` stands, if any.
pub open spec fn member_position(fields: Seq<(Seq<char>, JsonView)>, key: Seq<char>) -> Option<int>
    decreases fields.len(),
{
    if fields.len() == 0 {
        None
    } else if fields[0].0 == key {
        Some(0)
    } else {
        match member_position(fields.drop_first(), key) {
            Some(i) => Some(i + 1),
            None => None,
        }
    }
}

proof fn lemma_member_position(fields: Seq<(Seq<char>, JsonView)>, key: Seq<char>, i: int)
    requires
        0 <= i <= fields.len(),
        forall|k: int| 0 <= k < i ==> fields[k].0 != key,
        i == fields.len() || fields[i].0 == key,
    ensures
        member_position(fields, key) == if i == fields.len() {
            None::<int>
        } else {
            Some(i)
        },
    decreases i,
{
    if i > 0 {
        assert forall|k: int| 0 <= k < i - 1 implies fields.drop_first()[k].0 != key by {
            assert(fields.drop_first()[k] == fields[k + 1]);
        }
        lemma_member_position(fields.drop_first(), key, i - 1);
    }
}

/// The snapshot: the system summary with the installed programs under
/// `installed_software`.
pub fn snapshot(sysinfo: Json, installed: Vec<Json>) -> (r: Json)
    requires
        sysinfo@ is Object || sysinfo@ is Null,
    ensures
        r@ == set_member(sysinfo@, "installed_software"@, JsonView::Array(view_items(installed@))),
{
    let key = "installed_software";
    let value = Json::Array(installed);
    match sysinfo {
        Json::Object(fields) => {
            proof {
                lemma_view_fields(fields@);
            }
            let ghost fv = view_fields(fields@);
            let mut fields = fields;
            let mut pos: Option<usize> = None;
            let mut i: usize = 0;
            while i < fields.len()
                invariant
                    i <= fields@.len(),
                    fv == view_fields(fields@),
                    fv.len() == fields@.len(),
                    pos is None ==> forall|k: int| 0 <= k < i ==> fv[k].0 != key@,
                    pos matches Some(p) ==> p < fields@.len() && fv[p as int].0 == key@ && forall|k: int|
                        0 <= k < p ==> fv[k].0 != key@,
                    forall|k: int|
                        0 <= k < fields@.len() ==> #[trigger] fv[k] == (
                            fields@[k].0@,
                            fields@[k].1@,
                        ),
                decreases fields@.len() - i,
            {
                if pos.is_none() && str_eq(fields[i].0.as_str(), key) {
                    pos = Some(i);
                }
                i = i + 1;
            }
            if let Some(i) = pos {
                proof {
                    lemma_member_position(fv, key@, i as int);
                }
                let ghost val = value@;
                fields.set(i, (key.to_owned(), value));
                proof {
                    lemma_view_fields(fields@);
                }
                assert(view_fields(fields@) =~= fv.update(i as int, (key@, val)));
                Json::Object(fields)
            } else {
                proof {
                    lemma_member_position(fv, key@, fv.len() as int);
                }
                push_field(&mut fields, key, value);
                Json::Object(fields)
            }
        },
        _ => {
            let mut fields: Vec<(String, Json)> = Vec::new();
            let ghost val = value@;
            push_field(&mut fields, key, value);
            assert(view_fields(fields@) =~= seq![(key@, val)]);
            Json::Object(fields)
        },
    }
}

/// Whether a list is sorted by name.
pub open spec fn sorted_by_name(s: Seq<(Seq<char>, Seq<char>)>) -> bool {
    forall|i: int, j: int| 0 <= i < j < s.len() ==> name_le(#[trigger] s[i].0, #[trigger] s[j].0)
}

proof fn lemma_insert_by_name(s: Seq<(Seq<char>, Seq<char>)>, x: (Seq<char>, Seq<char>))
    requires
        sorted_by_name(s),
    ensures
        sorted_by_name(insert_by_name(s, x)),
        insert_by_name(s, x).to_multiset() == s.to_multiset().insert(x),
    decreases s.len(),
{
    broadcast use vstd::seq_lib::group_to_multiset_ensures;

    if s.len() == 0 {
        assert(seq![x] =~= Seq::<(Seq<char>, Seq<char>)>::empty().push(x));
    } else if name_le(s.last().0, x.0) {
        let r = s.push(x);
        assert forall|i: int, j: int| 0 <= i < j < r.len() implies name_le(
            #[trigger] r[i].0,
            #[trigger] r[j].0,
        ) by {
            if j == s.len() {
                if i < s.len() - 1 {
                    lemma_name_le_trans(s[i].0, s.last().0, x.0);
                }
            }
        }
    } else {
        let init = s.drop_last();
        let last = s.last();
        lemma_insert_by_name(init, x);
        let mid = insert_by_name(init, x);
        lemma_name_le_total(last.0, x.0);
        assert(s =~= init.push(last));
        assert forall|k: int| 0 <= k < mid.len() implies name_le(#[trigger] mid[k].0, last.0) by {
            assert(mid.to_multiset().count(mid[k]) > 0) by {
                assert(mid.contains(mid[k]));
            }
            if mid[k] != x {
                assert(init.to_multiset().count(mid[k]) > 0);
                assert(init.contains(mid[k]));
                let w = choose|w: int| 0 <= w < init.len() && init[w] == mid[k];
                assert(s[w] == init[w]);
            }
        }
        let r = mid.push(last);
        assert forall|i: int, j: int| 0 <= i < j < r.len() implies name_le(
            #[trigger] r[i].0,
            #[trigger] r[j].0,
        ) by {
            if j == mid.len() {
                assert(r[i] == mid[i]);
            } else {
                assert(r[i] == mid[i]);
                assert(r[j] == mid[j]);
            }
        }
        assert(init.push(last).to_multiset() =~= init.to_multiset().insert(last));
        assert(r.to_multiset() =~= s.to_multiset().insert(x));
    }
}

/// Sorting by name gives a list sorted by name that holds exactly the items
/// given, each as often as given.
pub proof fn law_sorted_by_name(items: Seq<(Seq<char>, Seq<char>)>)
    ensures
        sorted_by_name(sort_by_name(items)),
        sort_by_name(items).to_multiset() == items.to_multiset(),
    decreases items.len(),
{
    broadcast use vstd::seq_lib::group_to_multiset_ensures;

    if items.len() == 0 {
        assert(items.to_multiset() =~= Seq::<(Seq<char>, Seq<char>)>::empty().to_multiset());
    } else {
        law_sorted_by_name(items.drop_last());
        lemma_insert_by_name(sort_by_name(items.drop_last()), items.last());
        assert(items =~= items.drop_last().push(items.last()));
    }
}

/// Every program listed comes from an entry that is not a system component
/// and has a name.
pub proof fn law_listed_programs_are_named(entries: Seq<RegistryEntry>)
    ensures
        forall|i: int|
            #![trigger listed(entries)[i]]
            0 <= i < listed(entries).len() ==> exists|j: int|
                0 <= j < entries.len() && is_listed(#[trigger] entries[j]) && listed(entries)[i] == (
                    text_or_empty(entries[j].display_name),
                    text_or_empty(entries[j].display_version),
                ),
        listed(entries).len() <= entries.len(),
    decreases entries.len(),
{
    if entries.len() > 0 {
        let init = entries.drop_last();
        law_listed_programs_are_named(init);
        assert forall|i: int|
            #![trigger listed(entries)[i]]
            0 <= i < listed(entries).len() implies exists|j: int|
            0 <= j < entries.len() && is_listed(#[trigger] entries[j]) && listed(entries)[i] == (
                text_or_empty(entries[j].display_name),
                text_or_empty(entries[j].display_version),
            ) by {
            if i < listed(init).len() {
                assert(listed(entries)[i] == listed(init)[i]);
                let j = choose|j: int|
                    0 <= j < init.len() && is_listed(#[trigger] init[j]) && listed(init)[i] == (
                        text_or_empty(init[j].display_name),
                        text_or_empty(init[j].display_version),
                    );
                assert(entries[j] == init[j]);
            } else {
                let j = entries.len() - 1;
                assert(entries[j] == entries.last());
            }
        }
    }
}

proof fn lemma_member_position_lookup(fields: Seq<(Seq<char>, JsonView)>, key: Seq<char>)
    ensures
        match member_position(fields, key) {
            Some(j) => 0 <= j < fields.len() && fields[j].0 == key && forall|m: int|
                0 <= m < j ==> fields[m].0 != key,
            None => forall|m: int| 0 <= m < fields.len() ==> fields[m].0 != key,
        },
    decreases fields.len(),
{
    if fields.len() > 0 {
        lemma_member_position_lookup(fields.drop_first(), key);
        if fields[0].0 != key {
            assert forall|m: int| 1 <= m < fields.len() implies fields[m] == fields.drop_first()[m - 1] by {}
        }
    }
}

/// The snapshot keeps the system summary as it is: indexing it by any name
/// other than `installed_software` gives what the summary gives, and
/// `installed_software` gives the programs.
pub proof fn law_snapshot_keeps_the_summary(sysinfo: JsonView, installed: JsonView, key: Seq<char>)
    requires
        sysinfo is Object || sysinfo is Null,
    ensures
        get(set_member(sysinfo, "installed_software"@, installed), "installed_software"@) == Some(
            installed,
        ),
        key != "installed_software"@ ==> get(set_member(sysinfo, "installed_software"@, installed), key)
            == get(sysinfo, key),
{
    let ins = "installed_software"@;
    match sysinfo {
        JsonView::Object(fields) => {
            lemma_member_position_lookup(fields, ins);
            let after = set_member(sysinfo, ins, installed)->Object_0;
            match member_position(fields, ins) {
                Some(i) => {
                    assert forall|m: int| 0 <= m < i implies after[m].0 != ins by {
                        assert(after[m] == fields[m]);
                    }
                    lemma_lookup_found(after, ins, i);
                },
                None => {
                    assert forall|m: int| 0 <= m < fields.len() implies after[m].0 != ins by {
                        assert(after[m] == fields[m]);
                    }
                    lemma_lookup_found(after, ins, fields.len() as int);
                },
            }
            if key != ins {
                lemma_member_position_lookup(fields, key);
                match member_position(fields, key) {
                    Some(j) => {
                        assert forall|m: int| 0 <= m < j implies after[m].0 != key by {
                            assert(after[m].0 == fields[m].0 || after[m].0 == ins);
                        }
                        assert(after[j] == fields[j]);
                        lemma_lookup_found(after, key, j);
                        lemma_lookup_found(fields, key, j);
                    },
                    None => {
                        assert forall|m: int| 0 <= m < after.len() implies after[m].0 != key by {
                            if m < fields.len() {
                                assert(after[m].0 == fields[m].0 || after[m].0 == ins);
                            }
                        }
                        lemma_lookup_absent(after, key);
                        lemma_lookup_absent(fields, key);
                    },
                }
            }
        },
        _ => {
            let after = seq![(ins, installed)];
            lemma_lookup_found(after, ins, 0);
            if key != ins {
                lemma_lookup_absent(after, key);
            }
        },
    }
}

} // verus!
