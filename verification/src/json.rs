//! JSON documents as plain values.
use vstd::prelude::*;

verus! {

broadcast use vstd::std_specs::vec::axiom_vec_index_decreases;

/// A JSON number. Numbers with a fraction are carried as the bits of their
/// floating-point form.
#[derive(Clone, Copy, Debug, PartialEq, Eq, Structural)]
pub enum JsonNumber {
    /// A whole number that is not negative.
    PosInt(u64),
    /// A negative whole number.
    NegInt(i64),
    /// Any other number.
    FloatBits(u64),
}

/// A JSON document. The entries of an object stand in some order; a key is
/// looked up by its first entry.
#[derive(Debug, PartialEq, Eq)]
pub enum Json {
    Null,
    Bool(bool),
    Number(JsonNumber),
    Text(String),
    Array(Vec<Json>),
    Object(Vec<(String, Json)>),
}

/// The contents of a [`Json`] document.
pub enum JsonView {
    Null,
    Bool(bool),
    Number(JsonNumber),
    Text(Seq<char>),
    Array(Seq<JsonView>),
    Object(Seq<(Seq<char>, JsonView)>),
}

impl Json {
    /// The contents of the document.
    pub open spec fn deep(self) -> JsonView
        decreases self,
    {
        match self {
            Json::Null => JsonView::Null,
            Json::Bool(b) => JsonView::Bool(b),
            Json::Number(n) => JsonView::Number(n),
            Json::Text(s) => JsonView::Text(s@),
            Json::Array(items) => JsonView::Array(
                Seq::new(
                    items@.len(),
                    |i: int|
                        if 0 <= i < items@.len() {
                            items[i].deep()
                        } else {
                            JsonView::Null
                        },
                ),
            ),
            Json::Object(entries) => JsonView::Object(
                Seq::new(
                    entries@.len(),
                    |i: int|
                        if 0 <= i < entries@.len() {
                            (entries[i].0@, entries[i].1.deep())
                        } else {
                            (Seq::empty(), JsonView::Null)
                        },
                ),
            ),
        }
    }
}

/// The contents of the entries of an object.
pub open spec fn deep_entries(entries: Seq<(String, Json)>) -> Seq<(Seq<char>, JsonView)> {
    Seq::new(entries.len(), |i: int| (entries[i].0@, entries[i].1.deep()))
}

/// The contents of the items of an array.
pub open spec fn deep_items(items: Seq<Json>) -> Seq<JsonView> {
    Seq::new(items.len(), |i: int| items[i].deep())
}

/// The value of the first entry with this key.
pub open spec fn lookup(entries: Seq<(Seq<char>, JsonView)>, key: Seq<char>) -> Option<JsonView>
    decreases entries.len(),
{
    if entries.len() == 0 {
        None
    } else if entries[0].0 == key {
        Some(entries[0].1)
    } else {
        lookup(entries.skip(1), key)
    }
}

/// The entries with the value of `key` replaced, or with one entry more.
pub open spec fn put(
    entries: Seq<(Seq<char>, JsonView)>,
    key: Seq<char>,
    value: JsonView,
) -> Seq<(Seq<char>, JsonView)>
    decreases entries.len(),
{
    if entries.len() == 0 {
        seq![(key, value)]
    } else if entries[0].0 == key {
        seq![(key, value)] + entries.skip(1)
    } else {
        seq![entries[0]] + put(entries.skip(1), key, value)
    }
}

impl JsonView {
    /// The member of an object; `None` for anything else.
    pub open spec fn get(self, key: Seq<char>) -> Option<JsonView> {
        match self {
            JsonView::Object(entries) => lookup(entries, key),
            _ => None,
        }
    }

    pub open spec fn as_text(self) -> Option<Seq<char>> {
        match self {
            JsonView::Text(s) => Some(s),
            _ => None,
        }
    }

    /// The first item of an array.
    pub open spec fn first(self) -> Option<JsonView> {
        match self {
            JsonView::Array(items) => if items.len() > 0 {
                Some(items[0])
            } else {
                None
            },
            _ => None,
        }
    }

    /// The value as a whole number that fits an `i64`.
    pub open spec fn as_i64(self) -> Option<i64> {
        match self {
            JsonView::Number(JsonNumber::PosInt(n)) => if n <= i64::MAX {
                Some(n as i64)
            } else {
                None
            },
            JsonView::Number(JsonNumber::NegInt(n)) => Some(n),
            _ => None,
        }
    }
}

/// Members of what may not be there.
pub open spec fn member(value: Option<JsonView>, key: Seq<char>) -> Option<JsonView> {
    match value {
        Some(v) => v.get(key),
        None => None,
    }
}

pub open spec fn first_of(value: Option<JsonView>) -> Option<JsonView> {
    match value {
        Some(v) => v.first(),
        None => None,
    }
}

pub open spec fn text_of(value: Option<JsonView>) -> Option<Seq<char>> {
    match value {
        Some(v) => v.as_text(),
        None => None,
    }
}

/// What is put under a key is found there, and every other key keeps its value.
pub proof fn put_then_lookup(
    entries: Seq<(Seq<char>, JsonView)>,
    key: Seq<char>,
    value: JsonView,
    other: Seq<char>,
)
    ensures
        lookup(put(entries, key, value), other) == if other == key {
            Some(value)
        } else {
            lookup(entries, other)
        },
    decreases entries.len(),
{
    reveal_with_fuel(lookup, 2);
    let after = put(entries, key, value);
    if entries.len() == 0 {
        assert(after.skip(1) =~= Seq::empty());
    } else if entries[0].0 == key {
        assert(after.skip(1) =~= entries.skip(1));
    } else {
        put_then_lookup(entries.skip(1), key, value, other);
        assert(after.skip(1) =~= put(entries.skip(1), key, value));
    }
}

proof fn lemma_first_entry(
    entries: Seq<(Seq<char>, JsonView)>,
    key: Seq<char>,
    value: JsonView,
    at: int,
)
    requires
        0 <= at < entries.len(),
        entries[at].0 == key,
        forall|j: int| 0 <= j < at ==> (#[trigger] entries[j]).0 != key,
    ensures
        lookup(entries, key) == Some(entries[at].1),
        put(entries, key, value) == entries.update(at, (key, value)),
    decreases entries.len(),
{
    if at == 0 {
        assert(seq![(key, value)] + entries.skip(1) =~= entries.update(0, (key, value)));
    } else {
        assert(entries[0].0 != key);
        assert forall|j: int| 0 <= j < at - 1 implies (#[trigger] entries.skip(1)[j]).0 != key by {
            assert(entries.skip(1)[j] == entries[j + 1]);
        }
        lemma_first_entry(entries.skip(1), key, value, at - 1);
        assert(put(entries, key, value) =~= entries.update(at, (key, value)));
    }
}

proof fn lemma_no_entry(entries: Seq<(Seq<char>, JsonView)>, key: Seq<char>, value: JsonView)
    requires
        forall|j: int| 0 <= j < entries.len() ==> (#[trigger] entries[j]).0 != key,
    ensures
        lookup(entries, key) is None,
        put(entries, key, value) == entries.push((key, value)),
    decreases entries.len(),
{
    if entries.len() == 0 {
        assert(put(entries, key, value) =~= entries.push((key, value)));
    } else {
        assert(entries[0].0 != key);
        assert forall|j: int| 0 <= j < entries.skip(1).len() implies (#[trigger] entries.skip(
            1,
        )[j]).0 != key by {
            assert(entries.skip(1)[j] == entries[j + 1]);
        }
        lemma_no_entry(entries.skip(1), key, value);
        assert(put(entries, key, value) =~= entries.push((key, value)));
    }
}

/// The position of the first entry with this key.
pub(crate) fn find(entries: &Vec<(String, Json)>, key: &str) -> (r: Option<usize>)
    ensures
        match r {
            Some(i) => {
                &&& i < entries@.len()
                &&& entries@[i as int].0@ == key@
                &&& lookup(deep_entries(entries@), key@) == Some(entries@[i as int].1.deep())
                &&& forall|value: JsonView| #[trigger]
                    put(deep_entries(entries@), key@, value) == deep_entries(entries@).update(
                        i as int,
                        (key@, value),
                    )
            },
            None => {
                &&& lookup(deep_entries(entries@), key@) is None
                &&& forall|value: JsonView| #[trigger]
                    put(deep_entries(entries@), key@, value) == deep_entries(entries@).push(
                        (key@, value),
                    )
            },
        },
{
    let wanted: String = String::from_str(key);
    let ghost deep = deep_entries(entries@);
    let mut i: usize = 0;
    while i < entries.len()
        invariant
            i <= entries@.len(),
            wanted@ == key@,
            deep == deep_entries(entries@),
            forall|j: int| 0 <= j < i ==> (#[trigger] deep[j]).0 != key@,
        decreases entries@.len() - i,
    {
        if entries[i].0 == wanted {
            proof {
                assert(deep[i as int].0 == key@);
                assert forall|value: JsonView| #[trigger] put(deep, key@, value) == deep.update(
                    i as int,
                    (key@, value),
                ) by {
                    lemma_first_entry(deep, key@, value, i as int);
                }
                lemma_first_entry(deep, key@, JsonView::Null, i as int);
            }
            return Some(i);
        }
        i = i + 1;
    }
    proof {
        assert forall|value: JsonView| #[trigger] put(deep, key@, value) == deep.push(
            (key@, value),
        ) by {
            lemma_no_entry(deep, key@, value);
        }
        lemma_no_entry(deep, key@, JsonView::Null);
    }
    None
}

/// Replaces the value of `key`, or adds an entry.
pub(crate) fn set_entry(entries: &mut Vec<(String, Json)>, key: &str, value: Json)
    ensures
        deep_entries(final(entries)@) == put(deep_entries(old(entries)@), key@, value.deep()),
{
    let entry: (String, Json) = (String::from_str(key), value);
    match find(entries, key) {
        Some(i) => {
            entries.set(i, entry);
        },
        None => {
            entries.push(entry);
        },
    }
    assert(deep_entries(entries@) =~= put(deep_entries(old(entries)@), key@, value.deep()));
}

impl Json {
    /// The two ways to write down what an array or an object holds agree.
    pub proof fn lemma_deep(self)
        ensures
            self matches Json::Array(items) ==> self.deep() == JsonView::Array(deep_items(items@)),
            self matches Json::Object(entries) ==> self.deep() == JsonView::Object(
                deep_entries(entries@),
            ),
    {
        match self {
            Json::Array(items) => {
                if let JsonView::Array(seen) = self.deep() {
                    assert(seen =~= deep_items(items@));
                }
            },
            Json::Object(entries) => {
                if let JsonView::Object(seen) = self.deep() {
                    assert(seen =~= deep_entries(entries@));
                }
            },
            _ => {},
        }
    }

    /// The member of an object.
    pub fn get(&self, key: &str) -> (r: Option<&Json>)
        ensures
            match r {
                Some(v) => self.deep().get(key@) == Some(v.deep()),
                None => self.deep().get(key@) is None,
            },
    {
        proof {
            self.lemma_deep();
        }
        match self {
            Json::Object(entries) => match find(entries, key) {
                Some(i) => Some(&entries[i].1),
                None => None,
            },
            _ => None,
        }
    }

    /// The text of a string.
    pub fn as_str(&self) -> (r: Option<&str>)
        ensures
            match r {
                Some(s) => self.deep().as_text() == Some(s@),
                None => self.deep().as_text() is None,
            },
    {
        match self {
            Json::Text(s) => Some(s.as_str()),
            _ => None,
        }
    }

    /// The first item of an array.
    pub fn first(&self) -> (r: Option<&Json>)
        ensures
            match r {
                Some(v) => self.deep().first() == Some(v.deep()),
                None => self.deep().first() is None,
            },
    {
        proof {
            self.lemma_deep();
        }
        match self {
            Json::Array(items) => if items.len() > 0 {
                Some(&items[0])
            } else {
                None
            },
            _ => None,
        }
    }

    /// The value as a whole number that fits an `i64`.
    pub fn as_i64(&self) -> (r: Option<i64>)
        ensures
            r == self.deep().as_i64(),
    {
        match self {
            Json::Number(JsonNumber::PosInt(n)) => if *n <= i64::MAX as u64 {
                Some(*n as i64)
            } else {
                None
            },
            Json::Number(JsonNumber::NegInt(n)) => Some(*n),
            _ => None,
        }
    }

    /// A copy of the document.
    #[verifier::loop_isolation(false)]
    pub fn duplicate(&self) -> (r: Json)
        ensures
            r.deep() == self.deep(),
        decreases self,
    {
        proof {
            self.lemma_deep();
        }
        match self {
            Json::Null => Json::Null,
            Json::Bool(b) => Json::Bool(*b),
            Json::Number(n) => Json::Number(*n),
            Json::Text(s) => Json::Text(s.clone()),
            Json::Array(items) => {
                let mut out: Vec<Json> = Vec::new();
                let mut i: usize = 0;
                while i < items.len()
                    invariant
                        i <= items@.len(),
                        out@.len() == i,
                        forall|j: int| 0 <= j < i ==> (#[trigger] out@[j]).deep()
                            == items@[j].deep(),
                    decreases items@.len() - i,
                {
                    assert(decreases_to!(self => items[i as int]));
                    out.push(items[i].duplicate());
                    i = i + 1;
                }
                let copy = Json::Array(out);
                proof {
                    copy.lemma_deep();
                    assert(deep_items(out@) =~= deep_items(items@));
                }
                copy
            },
            Json::Object(entries) => {
                let mut out: Vec<(String, Json)> = Vec::new();
                let mut i: usize = 0;
                while i < entries.len()
                    invariant
                        i <= entries@.len(),
                        out@.len() == i,
                        forall|j: int|
                            0 <= j < i ==> (#[trigger] out@[j]).1.deep() == entries@[j].1.deep()
                                && out@[j].0@ == entries@[j].0@,
                    decreases entries@.len() - i,
                {
                    assert(decreases_to!(self => entries[i as int].1));
                    out.push((entries[i].0.clone(), entries[i].1.duplicate()));
                    i = i + 1;
                }
                let copy = Json::Object(out);
                proof {
                    copy.lemma_deep();
                    assert(deep_entries(out@) =~= deep_entries(entries@));
                }
                copy
            },
        }
    }
}

/// Whether a document is an object whose first entry under a key has this
/// value.
pub open spec fn holds(doc: JsonView, key: Seq<char>, value: JsonView) -> bool {
    doc matches JsonView::Object(entries) && exists|at: int|
        {
            &&& 0 <= at < entries.len()
            &&& #[trigger] entries[at] == (key, value)
            &&& forall|j: int| 0 <= j < at ==> (#[trigger] entries[j]).0 != key
        }
}

/// Whether a value stands in a document under a path of keys.
pub open spec fn stands_under(doc: JsonView, path: Seq<Seq<char>>, value: JsonView) -> bool
    decreases path.len(),
{
    if path.len() == 0 {
        doc == value
    } else {
        exists|next: JsonView|
            #[trigger] holds(doc, path[0], next) && stands_under(next, path.skip(1), value)
    }
}

/// A member is found if and only if the document holds it, and then it is the
/// first one under its key. What is no object has no members.
pub proof fn held_members_are_found(doc: JsonView, key: Seq<char>, value: JsonView)
    ensures
        doc.get(key) == Some(value) <==> holds(doc, key, value),
        doc !is Object ==> doc.get(key) is None,
        member(Some(doc), key) == doc.get(key),
        member(None, key) is None,
{
    if let JsonView::Object(entries) = doc {
        lemma_lookup(entries, key);
        if holds(doc, key, value) {
            let at = choose|at: int|
                {
                    &&& 0 <= at < entries.len()
                    &&& #[trigger] entries[at] == (key, value)
                    &&& forall|j: int| 0 <= j < at ==> (#[trigger] entries[j]).0 != key
                };
            lemma_first_entry(entries, key, value, at);
        }
    }
}

proof fn lemma_lookup(entries: Seq<(Seq<char>, JsonView)>, key: Seq<char>)
    ensures
        match lookup(entries, key) {
            Some(value) => exists|at: int|
                {
                    &&& 0 <= at < entries.len()
                    &&& #[trigger] entries[at] == (key, value)
                    &&& forall|j: int| 0 <= j < at ==> (#[trigger] entries[j]).0 != key
                },
            None => forall|j: int| 0 <= j < entries.len() ==> (#[trigger] entries[j]).0 != key,
        },
    decreases entries.len(),
{
    if entries.len() > 0 {
        if entries[0].0 == key {
            assert(entries[0] == (key, entries[0].1));
        } else {
            lemma_lookup(entries.skip(1), key);
            match lookup(entries.skip(1), key) {
                Some(value) => {
                    let at = choose|at: int|
                        {
                            &&& 0 <= at < entries.skip(1).len()
                            &&& #[trigger] entries.skip(1)[at] == (key, value)
                            &&& forall|j: int|
                                0 <= j < at ==> (#[trigger] entries.skip(1)[j]).0 != key
                        };
                    assert(entries[at + 1] == entries.skip(1)[at]);
                    assert forall|j: int| 0 <= j < at + 1 implies (#[trigger] entries[j]).0
                        != key by {
                        if j > 0 {
                            assert(entries.skip(1)[j - 1] == entries[j]);
                        }
                    }
                },
                None => {
                    assert forall|j: int| 0 <= j < entries.len() implies (#[trigger] entries[j]).0
                        != key by {
                        if j > 0 {
                            assert(entries.skip(1)[j - 1] == entries[j]);
                        }
                    }
                },
            }
        }
    }
}

/// A value stands under a path if and only if taking the members one after the
/// other leads to it.
pub proof fn paths_lead_to_values(doc: JsonView, path: Seq<Seq<char>>, value: JsonView)
    ensures
        path.len() > 0 ==> (stands_under(doc, path, value) <==> match doc.get(path[0]) {
            Some(next) => stands_under(next, path.skip(1), value),
            None => false,
        }),
{
    if path.len() > 0 {
        if let Some(next) = doc.get(path[0]) {
            held_members_are_found(doc, path[0], next);
        }
        if stands_under(doc, path, value) {
            let next = choose|next: JsonView|
                #[trigger] holds(doc, path[0], next) && stands_under(next, path.skip(1), value);
            held_members_are_found(doc, path[0], next);
        }
    }
}

/// A path of four keys, member by member.
pub(crate) proof fn lemma_four_keys(
    doc: JsonView,
    a: Seq<char>,
    b: Seq<char>,
    c: Seq<char>,
    d: Seq<char>,
    value: JsonView,
)
    ensures
        stands_under(doc, seq![a, b, c, d], value) <==> member(
            member(member(doc.get(a), b), c),
            d,
        ) == Some(value),
{
    let path = seq![a, b, c, d];
    assert(path.skip(1) =~= seq![b, c, d]);
    assert(path.skip(1).skip(1) =~= seq![c, d]);
    assert(path.skip(1).skip(1).skip(1) =~= seq![d]);
    assert(path.skip(1).skip(1).skip(1).skip(1) =~= Seq::<Seq<char>>::empty());
    paths_lead_to_values(doc, path, value);
    if let Some(x) = doc.get(a) {
        paths_lead_to_values(x, path.skip(1), value);
        if let Some(y) = x.get(b) {
            paths_lead_to_values(y, path.skip(1).skip(1), value);
            if let Some(z) = y.get(c) {
                paths_lead_to_values(z, path.skip(1).skip(1).skip(1), value);
            }
        }
    }
}

/// Putting a value under a key changes the first entry under that key and no
/// other; where there is none, one entry comes behind the others.
pub proof fn put_changes_one_entry(
    entries: Seq<(Seq<char>, JsonView)>,
    key: Seq<char>,
    value: JsonView,
    at: int,
)
    requires
        0 <= at <= entries.len(),
        at < entries.len() ==> entries[at].0 == key,
        forall|j: int| 0 <= j < at ==> (#[trigger] entries[j]).0 != key,
    ensures
        put(entries, key, value).len() == if at < entries.len() {
            entries.len()
        } else {
            entries.len() + 1
        },
        put(entries, key, value)[at] == (key, value),
        forall|j: int|
            0 <= j < entries.len() && j != at ==> #[trigger] put(entries, key, value)[j]
                == entries[j],
{
    if at < entries.len() {
        lemma_first_entry(entries, key, value, at);
    } else {
        lemma_no_entry(entries, key, value);
    }
}

/// A whole number reads as an `i64` if and only if it fits; nothing else does.
/// Only a text reads as a text, and only an array with items has a first one.
pub proof fn values_read_as_what_they_are(
    doc: JsonView,
    n: u64,
    m: i64,
    s: Seq<char>,
    items: Seq<JsonView>,
)
    ensures
        JsonView::Number(JsonNumber::PosInt(n)).as_i64() == if n < 0x8000_0000_0000_0000 {
            Some(n as i64)
        } else {
            None
        },
        JsonView::Number(JsonNumber::NegInt(m)).as_i64() == Some(m),
        doc !is Number ==> doc.as_i64() is None,
        doc matches JsonView::Number(JsonNumber::FloatBits(_)) ==> doc.as_i64() is None,
        JsonView::Text(s).as_text() == Some(s),
        text_of(Some(JsonView::Text(s))) == Some(s),
        doc !is Text ==> doc.as_text() is None && text_of(Some(doc)) is None,
        text_of(None) is None,
        items.len() > 0 ==> JsonView::Array(items).first() == Some(items[0]),
        items.len() > 0 ==> first_of(Some(JsonView::Array(items))) == Some(items[0]),
        items.len() == 0 ==> JsonView::Array(items).first() is None,
        doc !is Array ==> doc.first() is None,
        first_of(None) is None,
{
}

/// What a document holds is what its parts hold, in their order.
pub proof fn documents_hold_their_parts(doc: Json, i: int)
    ensures
        match doc {
            Json::Null => doc.deep() == JsonView::Null,
            Json::Bool(b) => doc.deep() == JsonView::Bool(b),
            Json::Number(n) => doc.deep() == JsonView::Number(n),
            Json::Text(s) => doc.deep() == JsonView::Text(s@),
            Json::Array(items) => doc.deep() matches JsonView::Array(deep) && deep.len()
                == items@.len() && (0 <= i < items@.len() ==> deep[i] == items@[i].deep()),
            Json::Object(entries) => doc.deep() matches JsonView::Object(deep) && deep.len()
                == entries@.len() && (0 <= i < entries@.len() ==> deep[i].0 == entries@[i].0@
                && deep[i].1 == entries@[i].1.deep()),
        },
{
    doc.lemma_deep();
}

} // verus!
