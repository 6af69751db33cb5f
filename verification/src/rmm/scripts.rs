//! The named script library: scripts that run on demand or on their own
//! schedule, kept as a JSON file that maps each name to its script.
use vstd::prelude::*;
use crate::json::{
    get, jstr, json_pretty_text, json_pretty_text_of, json_str, keys_ascending, lemma_plain_members,
    lemma_view_fields, lemma_view_items, parsed_json, plain_json, plain_members,
    lookup, members_named, push_field, push_item, view_fields, view_items, Json, JsonView,
};
use crate::text::{
    concat, lemma_name_le_antisym, lemma_name_le_total, lemma_name_le_trans, name_le, name_leq, str_eq,
};

verus! {

/// A script of the library: its body, and how often it runs by itself, in
/// seconds, if it has a schedule.
#[derive(Clone)]
pub struct Script {
    pub body: String,
    pub schedule_secs: Option<u64>,
}

/// The model of a script.
pub struct ScriptView {
    pub body: Seq<char>,
    pub schedule_secs: Option<u64>,
}

impl View for Script {
    type V = ScriptView;

    open spec fn view(&self) -> ScriptView {
        ScriptView { body: self.body@, schedule_secs: self.schedule_secs }
    }
}

impl Default for Script {
    fn default() -> (r: Script)
        ensures
            r@ == (ScriptView { body: Seq::empty(), schedule_secs: None }),
    {
        Script { body: String::new(), schedule_secs: None }
    }
}

/// The model of the library's entries: name and script, in order.
pub type Entries = Seq<(Seq<char>, ScriptView)>;

pub open spec fn entries_view(v: Seq<(String, Script)>) -> Entries {
    v.map_values(|e: (String, Script)| (e.0@, e.1@))
}

/// No name occurs twice.
pub open spec fn distinct_names(entries: Entries) -> bool {
    forall|i: int, j: int|
        0 <= i < entries.len() && 0 <= j < entries.len() && i != j ==> entries[i].0 != entries[j].0
}

/// Where the script named `name` stands, if there is one (the first, should
/// the name occur twice).
pub open spec fn position(entries: Entries, name: Seq<char>) -> Option<int>
    decreases entries.len(),
{
    if entries.len() == 0 {
        None
    } else if entries[0].0 == name {
        Some(0)
    } else {
        match position(entries.drop_first(), name) {
            Some(i) => Some(i + 1),
            None => None,
        }
    }
}

/// The script named `name`, if any.
pub open spec fn script_named(entries: Entries, name: Seq<char>) -> Option<ScriptView> {
    match position(entries, name) {
        Some(i) => Some(entries[i].1),
        None => None,
    }
}

/// Where a new script named `name` goes among entries in name order: before
/// the first entry whose name does not come before it.
pub open spec fn place(entries: Entries, name: Seq<char>) -> int
    decreases entries.len(),
{
    if entries.len() == 0 {
        0
    } else if name_le(name, entries[0].0) {
        0
    } else {
        1 + place(entries.drop_first(), name)
    }
}

/// The entries after storing `script` under `name`: it replaces the script
/// of that name where there is one, and goes in at its place in name order
/// otherwise.
pub open spec fn insert_script(entries: Entries, name: Seq<char>, script: ScriptView) -> Entries {
    match position(entries, name) {
        Some(i) => entries.update(i, (name, script)),
        None => entries.insert(place(entries, name), (name, script)),
    }
}

pub proof fn lemma_position(entries: Entries, name: Seq<char>)
    ensures
        match position(entries, name) {
            Some(i) => 0 <= i < entries.len() && entries[i].0 == name && forall|k: int|
                0 <= k < i ==> entries[k].0 != name,
            None => forall|k: int| 0 <= k < entries.len() ==> entries[k].0 != name,
        },
    decreases entries.len(),
{
    if entries.len() > 0 {
        lemma_position(entries.drop_first(), name);
        if entries[0].0 != name {
            match position(entries.drop_first(), name) {
                Some(i) => {
                    assert forall|k: int| 0 <= k < i + 1 implies entries[k].0 != name by {
                        if k > 0 {
                            assert(entries[k] == entries.drop_first()[k - 1]);
                        }
                    }
                },
                None => {
                    assert forall|k: int| 0 <= k < entries.len() implies entries[k].0 != name by {
                        if k > 0 {
                            assert(entries[k] == entries.drop_first()[k - 1]);
                        }
                    }
                },
            }
        }
    }
}

proof fn lemma_position_at(entries: Entries, name: Seq<char>, i: int)
    requires
        0 <= i < entries.len(),
        entries[i].0 == name,
        forall|k: int| 0 <= k < i ==> entries[k].0 != name,
    ensures
        position(entries, name) == Some(i),
{
    lemma_position(entries, name);
    match position(entries, name) {
        Some(j) => {
            if j < i {
            } else if j > i {
            }
        },
        None => {},
    }
}

proof fn lemma_position_none(entries: Entries, name: Seq<char>)
    requires
        forall|k: int| 0 <= k < entries.len() ==> entries[k].0 != name,
    ensures
        position(entries, name) is None,
{
    lemma_position(entries, name);
}

proof fn lemma_position_distinct(entries: Entries, name: Seq<char>, i: int)
    requires
        distinct_names(entries),
        0 <= i < entries.len(),
        entries[i].0 == name,
    ensures
        position(entries, name) == Some(i),
{
    lemma_position_at(entries, name, i);
}

/// Names in ascending order are distinct.
pub proof fn lemma_ascending_distinct(entries: Entries)
    requires
        keys_ascending(entries),
    ensures
        distinct_names(entries),
{
    assert forall|i: int, j: int|
        0 <= i < entries.len() && 0 <= j < entries.len() && i != j implies entries[i].0
        != entries[j].0 by {
        if i < j {
            assert(name_le(entries[i].0, entries[j].0));
        } else {
            assert(name_le(entries[j].0, entries[i].0));
        }
    }
}

proof fn lemma_place_first(entries: Entries, name: Seq<char>, i: int)
    requires
        0 <= i <= entries.len(),
        forall|k: int| 0 <= k < i ==> !name_le(name, #[trigger] entries[k].0),
        i == entries.len() || name_le(name, entries[i].0),
    ensures
        place(entries, name) == i,
    decreases i,
{
    if i > 0 {
        let rest = entries.drop_first();
        assert(!name_le(name, entries[0].0));
        assert forall|k: int| 0 <= k < i - 1 implies !name_le(name, #[trigger] rest[k].0) by {
            assert(rest[k] == entries[k + 1]);
            assert(!name_le(name, entries[k + 1].0));
        }
        if i < entries.len() {
            assert(rest[i - 1] == entries[i]);
        }
        lemma_place_first(rest, name, i - 1);
    } else if entries.len() > 0 {
        assert(name_le(name, entries[0].0));
    }
}

proof fn lemma_place(entries: Entries, name: Seq<char>)
    requires
        keys_ascending(entries),
    ensures
        0 <= place(entries, name) <= entries.len(),
        forall|k: int|
            0 <= k < place(entries, name) ==> name_le(#[trigger] entries[k].0, name)
                && entries[k].0 != name,
        forall|k: int| place(entries, name) <= k < entries.len() ==> name_le(name, #[trigger] entries[k].0),
    decreases entries.len(),
{
    if entries.len() > 0 {
        let rest = entries.drop_first();
        assert forall|i: int, j: int| 0 <= i < j < rest.len() implies name_le(
            #[trigger] rest[i].0,
            #[trigger] rest[j].0,
        ) && rest[i].0 != rest[j].0 by {
            assert(rest[i] == entries[i + 1]);
            assert(rest[j] == entries[j + 1]);
        }
        lemma_place(rest, name);
        if name_le(name, entries[0].0) {
            assert forall|k: int| 0 <= k < entries.len() implies name_le(name, #[trigger] entries[k].0) by {
                if k > 0 {
                    lemma_name_le_trans(name, entries[0].0, entries[k].0);
                }
            }
        } else {
            lemma_name_le_total(name, entries[0].0);
            lemma_name_le_total(name, name);
            let p = place(entries, name);
            assert forall|k: int| 0 <= k < p implies name_le(#[trigger] entries[k].0, name)
                && entries[k].0 != name by {
                if k > 0 {
                    assert(entries[k] == rest[k - 1]);
                }
            }
            assert forall|k: int| p <= k < entries.len() implies name_le(name, #[trigger] entries[k].0) by {
                assert(entries[k] == rest[k - 1]);
            }
        }
    }
}

/// Storing a script keeps the names in ascending order, so distinct.
pub proof fn lemma_insert_ascending(entries: Entries, name: Seq<char>, script: ScriptView)
    requires
        keys_ascending(entries),
    ensures
        keys_ascending(insert_script(entries, name, script)),
{
    lemma_position(entries, name);
    let after = insert_script(entries, name, script);
    match position(entries, name) {
        Some(i) => {
            assert forall|a: int, b: int| 0 <= a < b < after.len() implies name_le(
                #[trigger] after[a].0,
                #[trigger] after[b].0,
            ) && after[a].0 != after[b].0 by {
                assert(after[a].0 == entries[a].0);
                assert(after[b].0 == entries[b].0);
            }
        },
        None => {
            lemma_place(entries, name);
            let p = place(entries, name);
            assert forall|a: int, b: int| 0 <= a < b < after.len() implies name_le(
                #[trigger] after[a].0,
                #[trigger] after[b].0,
            ) && after[a].0 != after[b].0 by {
                if a < p {
                    assert(after[a] == entries[a]);
                    if b < p {
                        assert(after[b] == entries[b]);
                    } else if b > p {
                        assert(after[b] == entries[b - 1]);
                        lemma_name_le_trans(entries[a].0, name, entries[b - 1].0);
                        if entries[a].0 == entries[b - 1].0 {
                            lemma_name_le_antisym(name, entries[a].0);
                        }
                    }
                } else if a == p {
                    assert(after[b] == entries[b - 1]);
                } else {
                    assert(after[a] == entries[a - 1]);
                    assert(after[b] == entries[b - 1]);
                }
            }
        },
    }
}

/// The JSON form of a schedule: its seconds, or `null`.
pub open spec fn schedule_json(schedule: Option<u64>) -> JsonView {
    match schedule {
        Some(n) => JsonView::Int(n as int),
        None => JsonView::Null,
    }
}

/// The JSON form of a script, as the library file holds it.
pub open spec fn script_json(s: ScriptView) -> JsonView {
    JsonView::Object(seq![("body"@, jstr(s.body)), ("schedule_secs"@, schedule_json(s.schedule_secs))])
}

/// The JSON form of the library: an object that maps each name to its
/// script.
pub open spec fn library_json(entries: Entries) -> JsonView {
    JsonView::Object(entries.map_values(|e: (Seq<char>, ScriptView)| (e.0, script_json(e.1))))
}

/// A schedule read from JSON: `null` or a missing member is no schedule, a
/// whole number of seconds that fits 64 bits is one, and anything else makes
/// the script unreadable (the outer `None`).
pub open spec fn schedule_from(v: Option<JsonView>) -> Option<Option<u64>> {
    match v {
        None => Some(None),
        Some(JsonView::Null) => Some(None),
        Some(JsonView::Int(n)) => if 0 <= n <= u64::MAX {
            Some(Some(n as u64))
        } else {
            None
        },
        _ => None,
    }
}

/// A script read from JSON. It is an object with a string `body` and an
/// optional `schedule_secs`, neither of them twice (other members are
/// ignored), or an array of exactly those two values in that order.
pub open spec fn script_from_json(v: JsonView) -> Option<ScriptView> {
    match v {
        JsonView::Object(fields) => if members_named(fields, "body"@) > 1 || members_named(
            fields,
            "schedule_secs"@,
        ) > 1 {
            None
        } else {
            match lookup(fields, "body"@) {
                Some(JsonView::Str(body)) => match schedule_from(lookup(fields, "schedule_secs"@)) {
                    Some(schedule) => Some(ScriptView { body, schedule_secs: schedule }),
                    None => None,
                },
                _ => None,
            }
        },
        JsonView::Array(items) => if items.len() == 2 {
            match items[0] {
                JsonView::Str(body) => match schedule_from(Some(items[1])) {
                    Some(schedule) => Some(ScriptView { body, schedule_secs: schedule }),
                    None => None,
                },
                _ => None,
            }
        } else {
            None
        },
        _ => None,
    }
}

/// The entries read from the members of the library object, in order; a
/// name that occurs again replaces the script read before. Nothing if any
/// script is unreadable.
pub open spec fn entries_from_fields(fields: Seq<(Seq<char>, JsonView)>) -> Option<Entries>
    decreases fields.len(),
{
    if fields.len() == 0 {
        Some(Seq::empty())
    } else {
        match (entries_from_fields(fields.drop_last()), script_from_json(fields.last().1)) {
            (Some(entries), Some(script)) => Some(insert_script(entries, fields.last().0, script)),
            _ => None,
        }
    }
}

/// The library read from JSON: an object of scripts; nothing for anything
/// else.
pub open spec fn library_from_json(v: JsonView) -> Option<Entries> {
    match v {
        JsonView::Object(fields) => entries_from_fields(fields),
        _ => None,
    }
}

/// The listing of one script: its name and its schedule.
pub open spec fn listing(e: (Seq<char>, ScriptView)) -> JsonView {
    JsonView::Object(seq![("name"@, jstr(e.0)), ("schedule_secs"@, schedule_json(e.1.schedule_secs))])
}

/// The error for a script that the library does not hold.
pub open spec fn no_such_script(name: Seq<char>) -> Seq<char> {
    "No such script: "@ + name
}

/// Whether a script is due: only a scheduled script is, when it has not run
/// yet or when at least its period has passed since it last ran.
pub open spec fn due(schedule: Option<u64>, since_last_run: Option<u64>) -> bool {
    match schedule {
        None => false,
        Some(period) => match since_last_run {
            None => true,
            Some(elapsed) => elapsed >= period,
        },
    }
}

/// The script library: named scripts in ascending name order, so no name
/// twice.
pub struct ScriptLibrary {
    entries: Vec<(String, Script)>,
}

impl View for ScriptLibrary {
    type V = Entries;

    closed spec fn view(&self) -> Entries {
        entries_view(self.entries@)
    }
}

impl ScriptLibrary {
    #[verifier::type_invariant]
    closed spec fn names_ascending(self) -> bool {
        keys_ascending(entries_view(self.entries@))
    }

    /// The empty library.
    pub fn new() -> (r: ScriptLibrary)
        ensures
            r@ == Seq::<(Seq<char>, ScriptView)>::empty(),
    {
        let r = ScriptLibrary { entries: Vec::new() };
        assert(entries_view(r.entries@) =~= Seq::<(Seq<char>, ScriptView)>::empty());
        r
    }

    /// The number of scripts.
    pub fn len(&self) -> (r: usize)
        ensures
            r == self@.len(),
    {
        self.entries.len()
    }

    fn index_of(&self, name: &str) -> (r: Option<usize>)
        ensures
            self@.len() == self.entries@.len(),
            match r {
                Some(i) => position(self@, name@) == Some(i as int) && i < self@.len(),
                None => position(self@, name@) is None,
            },
    {
        let ghost v = self@;
        proof {
            lemma_position(v, name@);
        }
        let mut i: usize = 0;
        while i < self.entries.len()
            invariant
                i <= self.entries@.len(),
                v == entries_view(self.entries@),
                forall|k: int| 0 <= k < i ==> v[k].0 != name@,
            decreases self.entries@.len() - i,
        {
            if str_eq(self.entries[i].0.as_str(), name) {
                proof {
                    lemma_position_at(v, name@, i as int);
                }
                return Some(i);
            }
            i = i + 1;
        }
        proof {
            lemma_position_none(v, name@);
        }
        None
    }

    /// Stores `script` under `name`, replacing the script of that name if
    /// there is one.
    pub fn insert(&mut self, name: &str, script: Script)
        ensures
            final(self)@ == insert_script(old(self)@, name@, script@),
    {
        proof {
            use_type_invariant(&*self);
            lemma_insert_ascending(self@, name@, script@);
        }
        let ghost before = self.entries@;
        let ghost v = self@;
        match self.index_of(name) {
            Some(i) => {
                let mut entries = Vec::new();
                std::mem::swap(&mut entries, &mut self.entries);
                entries.set(i, (name.to_owned(), script));
                assert(entries_view(entries@) =~= entries_view(before).update(i as int, (name@, script@)));
                self.entries = entries;
            },
            None => {
                let mut j: usize = 0;
                while j < self.entries.len() && !name_leq(name, self.entries[j].0.as_str())
                    invariant
                        j <= self.entries@.len(),
                        self.entries@ == before,
                        v == entries_view(before),
                        v.len() == before.len(),
                        forall|k: int| 0 <= k < j ==> !name_le(name@, #[trigger] v[k].0),
                    decreases self.entries@.len() - j,
                {
                    assert(v[j as int].0 == self.entries@[j as int].0@);
                    j = j + 1;
                }
                proof {
                    if j < v.len() {
                        assert(v[j as int].0 == self.entries@[j as int].0@);
                    }
                    lemma_place_first(v, name@, j as int);
                }
                let mut entries = Vec::new();
                std::mem::swap(&mut entries, &mut self.entries);
                entries.insert(j, (name.to_owned(), script));
                assert(entries_view(entries@) =~= v.insert(j as int, (name@, script@)));
                self.entries = entries;
            },
        }
    }

    /// Adds the script `body` under `name`, unscheduled, replacing the
    /// script of that name if there is one.
    pub fn add(&mut self, name: &str, body: &str)
        ensures
            final(self)@ == insert_script(
                old(self)@,
                name@,
                ScriptView { body: body@, schedule_secs: None },
            ),
    {
        self.insert(name, Script { body: body.to_owned(), schedule_secs: None });
    }

    /// The named script, if the library holds one.
    pub fn get(&self, name: &str) -> (r: Option<&Script>)
        ensures
            match r {
                Some(s) => script_named(self@, name@) == Some(s@),
                None => script_named(self@, name@) is None,
            },
    {
        match self.index_of(name) {
            Some(i) => {
                assert(self@[i as int] == (self.entries@[i as int].0@, self.entries@[i as int].1@));
                Some(&self.entries[i].1)
            },
            None => None,
        }
    }

    /// The body of the named script, to run it, or the error that names the
    /// missing script.
    pub fn body_to_run(&self, name: &str) -> (r: Result<String, String>)
        ensures
            match script_named(self@, name@) {
                Some(s) => r is Ok && r->Ok_0@ == s.body,
                None => r is Err && r->Err_0@ == no_such_script(name@),
            },
    {
        match self.index_of(name) {
            Some(i) => {
                assert(self@[i as int] == (self.entries@[i as int].0@, self.entries@[i as int].1@));
                Ok(self.entries[i].1.body.clone())
            },
            None => Err(concat("No such script: ", name)),
        }
    }

    /// The listing of the library: name and schedule of each script, in
    /// name order.
    pub fn list(&self) -> (r: Json)
        ensures
            r@ == JsonView::Array(self@.map_values(|e: (Seq<char>, ScriptView)| listing(e))),
    {
        let ghost v = self@;
        let mut out: Vec<Json> = Vec::new();
        let mut i: usize = 0;
        while i < self.entries.len()
            invariant
                i <= self.entries@.len(),
                v == entries_view(self.entries@),
                view_items(out@) == v.take(i as int).map_values(
                    |e: (Seq<char>, ScriptView)| listing(e),
                ),
            decreases self.entries@.len() - i,
        {
            let (name, script) = (&self.entries[i].0, &self.entries[i].1);
            let mut fields: Vec<(String, Json)> = Vec::new();
            push_field(&mut fields, "name", json_str(name.as_str()));
            push_field(&mut fields, "schedule_secs", schedule_to_json(script.schedule_secs));
            assert(view_fields(fields@) =~= listing(v[i as int])->Object_0);
            push_item(&mut out, Json::Object(fields));
            assert(v.take(i + 1).map_values(|e: (Seq<char>, ScriptView)| listing(e)) =~= v.take(
                i as int,
            ).map_values(|e: (Seq<char>, ScriptView)| listing(e)).push(listing(v[i as int])));
            i = i + 1;
        }
        assert(v.take(v.len() as int) =~= v);
        Json::Array(out)
    }

    /// The JSON form of the library, as its file holds it.
    pub fn to_json(&self) -> (r: Json)
        ensures
            r@ == library_json(self@),
            keys_ascending(self@),
    {
        proof {
            use_type_invariant(self);
        }
        let ghost v = self@;
        let mut out: Vec<(String, Json)> = Vec::new();
        let mut i: usize = 0;
        while i < self.entries.len()
            invariant
                i <= self.entries@.len(),
                v == entries_view(self.entries@),
                view_fields(out@) == v.take(i as int).map_values(
                    |e: (Seq<char>, ScriptView)| (e.0, script_json(e.1)),
                ),
            decreases self.entries@.len() - i,
        {
            let (name, script) = (&self.entries[i].0, &self.entries[i].1);
            let mut fields: Vec<(String, Json)> = Vec::new();
            push_field(&mut fields, "body", json_str(script.body.as_str()));
            push_field(&mut fields, "schedule_secs", schedule_to_json(script.schedule_secs));
            assert(view_fields(fields@) =~= script_json(v[i as int].1)->Object_0);
            push_field(&mut out, name.as_str(), Json::Object(fields));
            assert(v.take(i + 1).map_values(|e: (Seq<char>, ScriptView)| (e.0, script_json(e.1)))
                =~= v.take(i as int).map_values(
                |e: (Seq<char>, ScriptView)| (e.0, script_json(e.1)),
            ).push((v[i as int].0, script_json(v[i as int].1))));
            i = i + 1;
        }
        assert(v.take(v.len() as int) =~= v);
        Json::Object(out)
    }

    /// The library that a JSON value holds, or nothing when it is not an
    /// object of readable scripts.
    pub fn from_json(v: &Json) -> (r: Option<ScriptLibrary>)
        ensures
            match r {
                Some(lib) => library_from_json(v@) == Some(lib@),
                None => library_from_json(v@) is None,
            },
    {
        match v {
            Json::Object(fields) => {
                proof {
                    lemma_view_fields(fields@);
                }
                let ghost fv = view_fields(fields@);
                let mut lib = ScriptLibrary::new();
                let mut i: usize = 0;
                while i < fields.len()
                    invariant
                        i <= fields@.len(),
                        fv == view_fields(fields@),
                        v@ == JsonView::Object(fv),
                        fv.len() == fields@.len(),
                        forall|k: int|
                            0 <= k < fields@.len() ==> #[trigger] fv[k] == (
                                fields@[k].0@,
                                fields@[k].1@,
                            ),
                        entries_from_fields(fv.take(i as int)) == Some(lib@),
                    decreases fields@.len() - i,
                {
                    assert(fv.take(i + 1).drop_last() =~= fv.take(i as int));
                    assert(fv.take(i + 1).last() == fv[i as int]);
                    match script_from(&fields[i].1) {
                        Some(script) => lib.insert(fields[i].0.as_str(), script),
                        None => {
                            proof {
                                lemma_unreadable_prefix(fv, i + 1);
                            }
                            return None;
                        },
                    }
                    i = i + 1;
                }
                assert(fv.take(fields@.len() as int) =~= fv);
                Some(lib)
            },
            _ => None,
        }
    }

    /// The script at place `i`, with its name.
    pub fn entry_at(&self, i: usize) -> (r: (&String, &Script))
        requires
            i < self@.len(),
        ensures
            (r.0@, r.1@) == self@[i as int],
    {
        (&self.entries[i].0, &self.entries[i].1)
    }

    /// The text of the library's file: its JSON form, indented. Read back
    /// as JSON, the text gives that form again, and so this library.
    pub fn to_text(&self) -> (r: String)
        ensures
            r@ == json_pretty_text_of(library_json(self@)),
            parsed_json(r@) == Some(library_json(self@)),
            library_from_json(library_json(self@)) == Some(self@),
    {
        let j = self.to_json();
        proof {
            lemma_library_json_plain(self@);
            law_library_json_round_trip(self@);
        }
        json_pretty_text(&j)
    }
}

/// When each script last started, in nanoseconds on the scheduler's clock.
pub type Starts = Seq<(Seq<char>, int)>;

/// When the named script last started, if it has (the first record, should
/// the name occur twice).
pub open spec fn last_start(starts: Starts, name: Seq<char>) -> Option<int>
    decreases starts.len(),
{
    if starts.len() == 0 {
        None
    } else if starts[0].0 == name {
        Some(starts[0].1)
    } else {
        last_start(starts.drop_first(), name)
    }
}

/// Where the record of the named script stands, if there is one.
pub open spec fn start_position(starts: Starts, name: Seq<char>) -> Option<int>
    decreases starts.len(),
{
    if starts.len() == 0 {
        None
    } else if starts[0].0 == name {
        Some(0)
    } else {
        match start_position(starts.drop_first(), name) {
            Some(i) => Some(i + 1),
            None => None,
        }
    }
}

/// The whole seconds since the named script last started, at time `now`
/// (zero if the clock reads earlier), if it has started.
pub open spec fn seconds_since_start(starts: Starts, name: Seq<char>, now: int) -> Option<u64> {
    match last_start(starts, name) {
        Some(t) => Some(((if now >= t { now - t } else { 0 }) / 1_000_000_000) as u64),
        None => None,
    }
}

/// The records after the named script starts at time `now`.
pub open spec fn record_start(starts: Starts, name: Seq<char>, now: int) -> Starts {
    match start_position(starts, name) {
        Some(i) => starts.update(i, (name, now)),
        None => starts.push((name, now)),
    }
}

proof fn lemma_start_position(starts: Starts, name: Seq<char>)
    ensures
        match start_position(starts, name) {
            Some(i) => 0 <= i < starts.len() && starts[i].0 == name && forall|k: int|
                0 <= k < i ==> starts[k].0 != name,
            None => forall|k: int| 0 <= k < starts.len() ==> starts[k].0 != name,
        },
        match start_position(starts, name) {
            Some(i) => last_start(starts, name) == Some(starts[i].1),
            None => last_start(starts, name) is None,
        },
    decreases starts.len(),
{
    if starts.len() > 0 {
        lemma_start_position(starts.drop_first(), name);
        if starts[0].0 != name {
            assert forall|k: int| 1 <= k < starts.len() implies starts[k] == starts.drop_first()[k - 1] by {}
        }
    }
}

proof fn lemma_start_position_at(starts: Starts, name: Seq<char>, i: int)
    requires
        0 <= i < starts.len(),
        starts[i].0 == name,
        forall|k: int| 0 <= k < i ==> starts[k].0 != name,
    ensures
        start_position(starts, name) == Some(i),
{
    lemma_start_position(starts, name);
    match start_position(starts, name) {
        Some(j) => {
            if j < i {
            } else if j > i {
            }
        },
        None => {},
    }
}

/// The scheduler's memory: when each script last started. It is kept in
/// memory only, so it starts empty on every start of the host.
pub struct Scheduler {
    starts: Vec<(String, u128)>,
}

impl View for Scheduler {
    type V = Starts;

    closed spec fn view(&self) -> Starts {
        self.starts@.map_values(|e: (String, u128)| (e.0@, e.1 as int))
    }
}

impl Scheduler {
    /// A scheduler that has started nothing yet.
    pub fn new() -> (r: Scheduler)
        ensures
            r@ == Seq::<(Seq<char>, int)>::empty(),
    {
        let r = Scheduler { starts: Vec::new() };
        assert(r@ =~= Seq::<(Seq<char>, int)>::empty());
        r
    }

    fn find(&self, name: &str) -> (r: Option<usize>)
        ensures
            self@.len() == self.starts@.len(),
            match r {
                Some(i) => start_position(self@, name@) == Some(i as int) && i < self@.len(),
                None => start_position(self@, name@) is None,
            },
    {
        let ghost v = self@;
        proof {
            lemma_start_position(v, name@);
        }
        let mut i: usize = 0;
        while i < self.starts.len()
            invariant
                i <= self.starts@.len(),
                v == self@,
                v.len() == self.starts@.len(),
                forall|k: int| 0 <= k < i ==> v[k].0 != name@,
            decreases self.starts@.len() - i,
        {
            assert(v[i as int].0 == self.starts@[i as int].0@);
            if str_eq(self.starts[i].0.as_str(), name) {
                proof {
                    lemma_start_position_at(v, name@, i as int);
                }
                return Some(i);
            }
            i = i + 1;
        }
        None
    }

    /// One step of the scheduler for one script, at time `now_nanos` on its
    /// clock (nanoseconds since it started): whether the script is due, by
    /// the whole seconds since it last started; if so it is recorded as
    /// started now, and the host runs it.
    pub fn start_if_due(&mut self, name: &str, schedule: Option<u64>, now_nanos: u128) -> (r: bool)
        requires
            now_nanos < 18_446_744_073_709_551_616_000_000_000,
        ensures
            r == due(schedule, seconds_since_start(old(self)@, name@, now_nanos as int)),
            final(self)@ == if r {
                record_start(old(self)@, name@, now_nanos as int)
            } else {
                old(self)@
            },
    {
        let ghost before = self@;
        let pos = self.find(name);
        let since: Option<u64> = match pos {
            Some(i) => {
                let t = self.starts[i].1;
                proof {
                    lemma_start_position(before, name@);
                    assert(before[i as int].1 == t as int);
                }
                let elapsed = if now_nanos >= t {
                    now_nanos - t
                } else {
                    0
                };
                Some((elapsed / 1_000_000_000) as u64)
            },
            None => {
                proof {
                    lemma_start_position(before, name@);
                }
                None
            },
        };
        if !is_due(schedule, since) {
            return false;
        }
        match pos {
            Some(i) => {
                self.starts.set(i, (name.to_owned(), now_nanos));
                assert(self@ =~= before.update(i as int, (name@, now_nanos as int)));
            },
            None => {
                self.starts.push((name.to_owned(), now_nanos));
                assert(self@ =~= before.push((name@, now_nanos as int)));
            },
        }
        true
    }
}

fn schedule_to_json(schedule: Option<u64>) -> (r: Json)
    ensures
        r@ == schedule_json(schedule),
{
    match schedule {
        Some(n) => Json::Int(n as i128),
        None => Json::Null,
    }
}

fn schedule_from_json(v: Option<&Json>) -> (r: Option<Option<u64>>)
    ensures
        r == schedule_from(
            match v {
                Some(j) => Some(j@),
                None => None,
            },
        ),
{
    match v {
        None => Some(None),
        Some(Json::Null) => Some(None),
        Some(Json::Int(n)) => if 0 <= *n && *n <= 0xffff_ffff_ffff_ffff {
            Some(Some(*n as u64))
        } else {
            None
        },
        Some(_) => None,
    }
}

/// A script read from its JSON form.
pub fn script_from(v: &Json) -> (r: Option<Script>)
    ensures
        match r {
            Some(s) => script_from_json(v@) == Some(s@),
            None => script_from_json(v@) is None,
        },
{
    match v {
        Json::Object(_) => {
            if v.repeats_member("body") || v.repeats_member("schedule_secs") {
                return None;
            }
            let body = match v.get("body") {
                Some(Json::Str(b)) => b.clone(),
                _ => return None,
            };
            match schedule_from_json(v.get("schedule_secs")) {
                Some(schedule) => Some(Script { body, schedule_secs: schedule }),
                None => None,
            }
        },
        Json::Array(items) => {
            proof {
                lemma_view_items(items@);
            }
            if items.len() != 2 {
                return None;
            }
            let body = match &items[0] {
                Json::Str(b) => b.clone(),
                _ => return None,
            };
            match schedule_from_json(Some(&items[1])) {
                Some(schedule) => Some(Script { body, schedule_secs: schedule }),
                None => None,
            }
        },
        _ => None,
    }
}

/// Whether a script is due.
pub fn is_due(schedule: Option<u64>, since_last_run: Option<u64>) -> (r: bool)
    ensures
        r == due(schedule, since_last_run),
{
    match schedule {
        None => false,
        Some(period) => match since_last_run {
            None => true,
            Some(elapsed) => elapsed >= period,
        },
    }
}

proof fn lemma_unreadable_prefix(fields: Seq<(Seq<char>, JsonView)>, n: int)
    requires
        0 <= n <= fields.len(),
        entries_from_fields(fields.take(n)) is None,
    ensures
        entries_from_fields(fields) is None,
    decreases fields.len() - n,
{
    if n < fields.len() {
        assert(fields.take(n + 1).drop_last() =~= fields.take(n));
        lemma_unreadable_prefix(fields, n + 1);
    } else {
        assert(fields.take(n) =~= fields);
    }
}

/// Reading back the JSON form of a library gives the same library: the file
/// format loses nothing.
pub proof fn law_library_json_round_trip(entries: Entries)
    requires
        keys_ascending(entries),
    ensures
        library_from_json(library_json(entries)) == Some(entries),
    decreases entries.len(),
{
    lemma_fields_round_trip(entries);
}

proof fn lemma_script_round_trip(s: ScriptView)
    ensures
        script_from_json(script_json(s)) == Some(s),
{
    reveal_strlit("body");
    reveal_strlit("schedule_secs");
    assert("body"@.len() == 4);
    let fields = script_json(s)->Object_0;
    assert(fields.drop_first()[0] == ("schedule_secs"@, schedule_json(s.schedule_secs)));
    assert(fields.drop_first().drop_first().len() == 0);
    reveal_with_fuel(lookup, 2);
    reveal_with_fuel(members_named, 3);
}

proof fn lemma_fields_round_trip(entries: Entries)
    requires
        keys_ascending(entries),
    ensures
        entries_from_fields(
            entries.map_values(|e: (Seq<char>, ScriptView)| (e.0, script_json(e.1))),
        ) == Some(entries),
    decreases entries.len(),
{
    let fields = entries.map_values(|e: (Seq<char>, ScriptView)| (e.0, script_json(e.1)));
    if entries.len() == 0 {
        assert(fields.len() == 0);
    } else {
        let init = entries.drop_last();
        let name = entries.last().0;
        assert forall|i: int, j: int| 0 <= i < j < init.len() implies name_le(
            #[trigger] init[i].0,
            #[trigger] init[j].0,
        ) && init[i].0 != init[j].0 by {
            assert(init[i] == entries[i]);
            assert(init[j] == entries[j]);
        }
        lemma_fields_round_trip(init);
        assert(fields.drop_last() =~= init.map_values(
            |e: (Seq<char>, ScriptView)| (e.0, script_json(e.1)),
        ));
        lemma_script_round_trip(entries.last().1);
        assert forall|k: int| 0 <= k < init.len() implies init[k].0 != name && !name_le(
            name,
            #[trigger] init[k].0,
        ) by {
            assert(init[k] == entries[k]);
            assert(name_le(entries[k].0, name));
            if name_le(name, init[k].0) {
                lemma_name_le_antisym(name, init[k].0);
            }
        }
        lemma_position_none(init, name);
        lemma_place_first(init, name, init.len() as int);
        assert(init.insert(init.len() as int, entries.last()) =~= entries);
    }
}

/// The JSON form of a library is plain: serde_json reads it back from its
/// own text unchanged.
pub proof fn lemma_library_json_plain(entries: Entries)
    requires
        keys_ascending(entries),
    ensures
        plain_json(library_json(entries), 127),
{
    let fields = library_json(entries)->Object_0;
    assert forall|i: int| 0 <= i < fields.len() implies plain_json(#[trigger] fields[i].1, 126) by {
        lemma_script_json_plain(entries[i].1);
    }
    lemma_plain_members(fields, 126);
    assert forall|i: int, j: int| 0 <= i < j < fields.len() implies name_le(
        #[trigger] fields[i].0,
        #[trigger] fields[j].0,
    ) && fields[i].0 != fields[j].0 by {
        assert(fields[i].0 == entries[i].0);
        assert(fields[j].0 == entries[j].0);
    }
}

proof fn lemma_script_json_plain(s: ScriptView)
    ensures
        plain_json(script_json(s), 126),
{
    reveal_strlit("body");
    reveal_strlit("schedule_secs");
    let fields = script_json(s)->Object_0;
    assert(name_le("body"@, "schedule_secs"@));
    assert("body"@ != "schedule_secs"@) by {
        assert("body"@.len() != "schedule_secs"@.len());
    }
    assert(fields.drop_last().drop_last().len() == 0);
    assert(plain_json(fields[0].1, 125));
    assert(plain_json(fields[1].1, 125));
    assert(plain_members(fields.drop_last(), 125)) by {
        reveal_with_fuel(plain_members, 2);
    }
    assert(plain_members(fields, 125));
    assert(keys_ascending(fields));
}

/// Adding a script and then asking for it gives its body; the other scripts
/// are untouched, and the added one has no schedule.
pub proof fn law_added_script_runs_its_body(
    entries: Entries,
    name: Seq<char>,
    body: Seq<char>,
    other: Seq<char>,
)
    requires
        keys_ascending(entries),
    ensures
        script_named(insert_script(entries, name, ScriptView { body, schedule_secs: None }), name)
            == Some(ScriptView { body, schedule_secs: None }),
        other != name ==> script_named(
            insert_script(entries, name, ScriptView { body, schedule_secs: None }),
            other,
        ) == script_named(entries, other),
{
    let s = ScriptView { body, schedule_secs: None };
    let after = insert_script(entries, name, s);
    lemma_position(entries, name);
    lemma_position(entries, other);
    lemma_insert_ascending(entries, name, s);
    lemma_ascending_distinct(after);
    lemma_ascending_distinct(entries);
    match position(entries, name) {
        Some(i) => {
            lemma_position_distinct(after, name, i);
            if other != name {
                match position(entries, other) {
                    Some(j) => {
                        lemma_position_distinct(after, other, j);
                    },
                    None => {
                        lemma_position_none(after, other);
                    },
                }
            }
        },
        None => {
            lemma_place(entries, name);
            let p = place(entries, name);
            lemma_position_distinct(after, name, p);
            if other != name {
                match position(entries, other) {
                    Some(j) => {
                        if j < p {
                            assert(after[j] == entries[j]);
                            lemma_position_distinct(after, other, j);
                        } else {
                            assert(after[j + 1] == entries[j]);
                            lemma_position_distinct(after, other, j + 1);
                        }
                    },
                    None => {
                        assert forall|k: int| 0 <= k < after.len() implies after[k].0 != other by {
                            if k > p {
                                assert(after[k] == entries[k - 1]);
                            } else if k < p {
                                assert(after[k] == entries[k]);
                            }
                        }
                        lemma_position_none(after, other);
                    },
                }
            }
        },
    }
}

/// A script without a schedule never runs by itself, and a scheduled one
/// that has not run yet is due at once.
pub proof fn law_schedule(period: u64, elapsed: u64)
    ensures
        !due(None, Some(elapsed)),
        !due(None, None),
        due(Some(period), None),
        due(Some(period), Some(elapsed)) <==> elapsed >= period,
{
}

/// Once a script has started, the scheduler starts it again only when its
/// period has passed since that start, in whole seconds; a script without a
/// schedule never starts.
pub proof fn law_scheduler_waits_a_period(starts: Starts, name: Seq<char>, period: u64, t: int, now: int)
    requires
        0 <= t <= now,
        now - t < 18_446_744_073_709_551_616_000_000_000,
    ensures
        due(Some(period), seconds_since_start(record_start(starts, name, t), name, now)) <==> (now - t)
            / 1_000_000_000 >= period,
        !due(None, seconds_since_start(starts, name, now)),
{
    let after = record_start(starts, name, t);
    lemma_start_position(starts, name);
    match start_position(starts, name) {
        Some(i) => {
            lemma_start_position_at(after, name, i);
        },
        None => {
            assert forall|k: int| 0 <= k < starts.len() implies after[k].0 != name by {
                assert(after[k] == starts[k]);
            }
            lemma_start_position_at(after, name, starts.len() as int);
        },
    }
    lemma_start_position(after, name);
    assert(last_start(after, name) == Some(t));
    assert((now - t) / 1_000_000_000 <= u64::MAX) by (nonlinear_arith)
        requires
            0 <= now - t < 18_446_744_073_709_551_616_000_000_000,
    ;
}

/// Recording that a script started sets its own last start to that time and
/// leaves the last start of every other script as it was: each script is
/// timed from its own last start alone.
pub proof fn law_a_start_leaves_other_scripts_alone(
    starts: Starts,
    name: Seq<char>,
    t: int,
    other: Seq<char>,
    now: int,
)
    ensures
        last_start(record_start(starts, name, t), name) == Some(t),
        other != name ==> last_start(record_start(starts, name, t), other) == last_start(starts, other),
        other != name ==> seconds_since_start(record_start(starts, name, t), other, now)
            == seconds_since_start(starts, other, now),
{
    let after = record_start(starts, name, t);
    lemma_start_position(starts, name);
    lemma_start_position(starts, other);
    match start_position(starts, name) {
        Some(i) => {
            lemma_start_position_at(after, name, i);
        },
        None => {
            assert forall|k: int| 0 <= k < starts.len() implies after[k].0 != name by {
                assert(after[k] == starts[k]);
            }
            lemma_start_position_at(after, name, starts.len() as int);
        },
    }
    lemma_start_position(after, name);
    if other != name {
        match start_position(starts, other) {
            Some(j) => {
                assert forall|k: int| 0 <= k < j implies after[k].0 != other by {
                    assert(after[k].0 == starts[k].0 || after[k].0 == name);
                }
                assert(after[j] == starts[j]);
                lemma_start_position_at(after, other, j);
            },
            None => {
                assert forall|k: int| 0 <= k < after.len() implies after[k].0 != other by {
                    if k < starts.len() {
                        assert(after[k].0 == starts[k].0 || after[k].0 == name);
                    }
                }
            },
        }
        lemma_start_position(after, other);
    }
}

} // verus!
