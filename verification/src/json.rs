//! JSON values as the library reads and builds them.
//!
//! [`JsonView`] is the mathematical model: what a value says. [`Json`] is the executable
//! tree. Objects keep their entries in insertion order and hold each key once.
use vstd::prelude::*;
use vstd::string::*;

use crate::bridge;
use crate::bridge::Layer;
use crate::text;

verus! {

/// The entries of an object, in order.
pub type Entries = Seq<(Seq<char>, JsonView)>;

/// What a JSON value says.
pub enum JsonView {
    Null,
    Bool(bool),
    /// An integer that fits `u64`.
    Unsigned(u64),
    /// A negative integer that fits `i64`.
    Negative(i64),
    /// Any other number, by the bits of its double precision representation.
    Float(u64),
    Text(Seq<char>),
    Array(Seq<JsonView>),
    Object(Seq<(Seq<char>, JsonView)>),
}

/// The value stored under `key`.
pub open spec fn lookup(entries: Entries, key: Seq<char>) -> Option<JsonView>
    decreases entries.len(),
{
    if entries.len() == 0 {
        None
    } else if entries.last().0 == key {
        Some(entries.last().1)
    } else {
        lookup(entries.drop_last(), key)
    }
}

/// The entries with the value under `key` replaced where it stands.
pub open spec fn replace(entries: Entries, key: Seq<char>, value: JsonView) -> Entries
    decreases entries.len(),
{
    if entries.len() == 0 {
        entries
    } else if entries.last().0 == key {
        entries.drop_last().push((key, value))
    } else {
        replace(entries.drop_last(), key, value).push(entries.last())
    }
}

/// The entries after `key` is set to `value`: in place where the key is present, else at the end.
pub open spec fn insert(entries: Entries, key: Seq<char>, value: JsonView) -> Entries {
    if lookup(entries, key) is Some {
        replace(entries, key, value)
    } else {
        entries.push((key, value))
    }
}

/// The entries after those of `more` are set one by one, in order.
pub open spec fn extend(entries: Entries, more: Entries) -> Entries
    decreases more.len(),
{
    if more.len() == 0 {
        entries
    } else {
        insert(extend(entries, more.drop_last()), more.last().0, more.last().1)
    }
}

/// The entries whose key is not `key`, in order.
pub open spec fn without(entries: Entries, key: Seq<char>) -> Entries
    decreases entries.len(),
{
    if entries.len() == 0 {
        entries
    } else if entries.last().0 == key {
        without(entries.drop_last(), key)
    } else {
        without(entries.drop_last(), key).push(entries.last())
    }
}

/// No key occurs twice.
pub open spec fn distinct_keys(entries: Entries) -> bool {
    forall|i: int, j: int|
        0 <= i < j < entries.len() ==> (#[trigger] entries[i]).0 != (#[trigger] entries[j]).0
}

impl JsonView {
    /// The member `key` of an object; nothing for any other value.
    pub open spec fn get(self, key: Seq<char>) -> Option<JsonView> {
        match self {
            JsonView::Object(entries) => lookup(entries, key),
            _ => None,
        }
    }

    pub open spec fn as_str(self) -> Option<Seq<char>> {
        match self {
            JsonView::Text(text) => Some(text),
            _ => None,
        }
    }

    pub open spec fn as_u64(self) -> Option<u64> {
        match self {
            JsonView::Unsigned(n) => Some(n),
            _ => None,
        }
    }

    pub open spec fn as_array(self) -> Option<Seq<JsonView>> {
        match self {
            JsonView::Array(items) => Some(items),
            _ => None,
        }
    }

    /// The text under `key`, if there is text under it.
    pub open spec fn get_str(self, key: Seq<char>) -> Option<Seq<char>> {
        match self.get(key) {
            Some(value) => value.as_str(),
            None => None,
        }
    }

    /// The unsigned integer under `key`, if there is one under it.
    pub open spec fn get_u64(self, key: Seq<char>) -> Option<u64> {
        match self.get(key) {
            Some(value) => value.as_u64(),
            None => None,
        }
    }

    /// The array under `key`, if there is one under it.
    pub open spec fn get_array(self, key: Seq<char>) -> Option<Seq<JsonView>> {
        match self.get(key) {
            Some(value) => value.as_array(),
            None => None,
        }
    }
}

/// A number that is no integer of 64 bits, kept as the outside library holds it.
#[derive(Debug, PartialEq)]
pub struct Float {
    pub(crate) value: serde_json::Value,
}

impl Float {
    pub closed spec fn tree(self) -> JsonView {
        bridge::value_tree(self.value)
    }

    #[verifier::type_invariant]
    pub(crate) closed spec fn is_float(self) -> bool {
        bridge::value_tree(self.value) is Float
    }
}

/// A JSON object: its entries in insertion order, no key twice.
#[derive(Debug, PartialEq)]
pub struct Object {
    pub(crate) entries: Vec<(String, Json)>,
}

/// A JSON value.
#[derive(Debug, PartialEq)]
pub enum Json {
    Null,
    Bool(bool),
    Unsigned(u64),
    /// A signed integer; one that is not negative says the same as `Unsigned`.
    Signed(i64),
    Float(Float),
    Text(String),
    Array(Vec<Json>),
    Object(Object),
}

impl View for Json {
    type V = JsonView;

    open spec fn view(&self) -> JsonView
        decreases self,
    {
        match self {
            Json::Null => JsonView::Null,
            Json::Bool(b) => JsonView::Bool(*b),
            Json::Unsigned(n) => JsonView::Unsigned(*n),
            Json::Signed(n) => if *n >= 0 {
                JsonView::Unsigned(*n as u64)
            } else {
                JsonView::Negative(*n)
            },
            Json::Float(f) => f.tree(),
            Json::Text(text) => JsonView::Text(text@),
            Json::Array(items) => JsonView::Array(items_view(*items)),
            Json::Object(object) => JsonView::Object(object.view()),
        }
    }
}

/// What the items of an array say.
pub open spec fn items_view(items: Vec<Json>) -> Seq<JsonView>
    decreases items,
{
    Seq::new(
        items@.len(),
        |i: int|
            if 0 <= i < items@.len() {
                items@[i].view()
            } else {
                JsonView::Null
            },
    )
}

impl View for Object {
    type V = Entries;

    closed spec fn view(&self) -> Entries
        decreases self,
    {
        Seq::new(
            self.entries@.len(),
            |i: int|
                if 0 <= i < self.entries@.len() {
                    (self.entries@[i].0@, self.entries@[i].1.view())
                } else {
                    (Seq::empty(), JsonView::Null)
                },
        )
    }
}

/// What each of the values says.
pub open spec fn views(items: Seq<Json>) -> Seq<JsonView> {
    Seq::new(items.len(), |i: int| items[i]@)
}

pub broadcast proof fn lemma_items_view(items: Vec<Json>)
    ensures
        #[trigger] items_view(items) == views(items@),
{
    assert(items_view(items) =~= views(items@));
}

pub broadcast proof fn lemma_views_push(items: Seq<Json>, item: Json)
    ensures
        #[trigger] views(items.push(item)) == views(items).push(item@),
{
    assert(views(items.push(item)) =~= views(items).push(item@));
}

pub broadcast proof fn lemma_views_add(items: Seq<Json>, more: Seq<Json>)
    ensures
        #[trigger] views(items + more) == views(items) + views(more),
{
    assert(views(items + more) =~= views(items) + views(more));
}

pub broadcast group group_views {
    lemma_items_view,
    lemma_views_push,
    lemma_views_add,
}

/// What the value says, if there is one.
pub open spec fn opt_view(value: Option<&Json>) -> Option<JsonView> {
    match value {
        Some(json) => Some(json@),
        None => None,
    }
}

/// What an owned value says, if there is one.
pub open spec fn opt_json(value: Option<Json>) -> Option<JsonView> {
    match value {
        Some(json) => Some(json@),
        None => None,
    }
}

/// What a list of values says, if there is one.
pub open spec fn opt_views(items: Option<Vec<Json>>) -> Option<Seq<JsonView>> {
    match items {
        Some(items) => Some(views(items@)),
        None => None,
    }
}

/// The entries with one more at the end, where there is a value for it.
pub open spec fn with_entry(entries: Entries, key: Seq<char>, value: Option<JsonView>) -> Entries {
    match value {
        Some(value) => entries.push((key, value)),
        None => entries,
    }
}

/// What each of the names says.
pub open spec fn name_views(names: Seq<&str>) -> Seq<Seq<char>> {
    Seq::new(names.len(), |i: int| names[i]@)
}

/// Items under names, each under the name at its place.
pub open spec fn named(names: Seq<Seq<char>>, items: Seq<JsonView>) -> Entries
    decreases items.len(),
{
    if items.len() == 0 {
        Seq::empty()
    } else {
        insert(named(names, items.drop_last()), names[items.len() - 1], items.last())
    }
}

/// A record by the names of its members. A record may also be given as an array of its members
/// in order, of which those from `least` on may be left out at the end.
pub open spec fn by_name(value: JsonView, names: Seq<Seq<char>>, least: nat) -> JsonView {
    match value {
        JsonView::Array(items) => if least <= items.len() <= names.len() {
            JsonView::Object(named(names, items))
        } else {
            value
        },
        _ => value,
    }
}

/// A record of one of several kinds: its kind, and the record without it. As an array its first
/// item is the kind.
pub open spec fn by_kind(value: JsonView, tag: Seq<char>) -> Option<(Seq<char>, JsonView)> {
    match value {
        JsonView::Array(items) => if items.len() > 0 {
            match items[0] {
                JsonView::Text(kind) => Some((kind, JsonView::Array(items.skip(1)))),
                _ => None,
            }
        } else {
            None
        },
        _ => match value.get_str(tag) {
            Some(kind) => Some((kind, value)),
            None => None,
        },
    }
}

/// Under names that differ each item is found under its name, and nothing else is found.
pub proof fn law_members_by_place(names: Seq<Seq<char>>, items: Seq<JsonView>, key: Seq<char>)
    requires
        items.len() <= names.len(),
        names.no_duplicates(),
    ensures
        forall|i: int|
            0 <= i < items.len() ==> lookup(named(names, items), #[trigger] names[i]) == Some(
                items[i],
            ),
        (forall|i: int| 0 <= i < items.len() ==> #[trigger] names[i] != key) ==> lookup(
            named(names, items),
            key,
        ) is None,
    decreases items.len(),
{
    broadcast use group_lookup;

    if items.len() > 0 {
        law_members_by_place(names, items.drop_last(), key);
    }
}

/// A copy of a value, if there is one.
pub fn copy_opt(value: &Option<Json>) -> (copy: Option<Json>)
    ensures
        opt_json(copy) == opt_json(*value),
{
    match value {
        Some(json) => Some(json.clone()),
        None => None,
    }
}

/// A value, or null where there is none.
pub open spec fn or_null(value: Option<JsonView>) -> JsonView {
    match value {
        Some(value) => value,
        None => JsonView::Null,
    }
}

/// A text, or null where there is none.
pub open spec fn text_or_null(value: Option<Seq<char>>) -> JsonView {
    match value {
        Some(text) => JsonView::Text(text),
        None => JsonView::Null,
    }
}

/// An optional text member: nothing for an absent or null value, and `None` outside for a
/// value that is no text.
pub open spec fn text_member(value: Option<JsonView>) -> Option<Option<Seq<char>>> {
    match value {
        None => Some(None),
        Some(JsonView::Null) => Some(None),
        Some(JsonView::Text(text)) => Some(Some(text)),
        Some(_) => None,
    }
}

/// What the text says, if there is one.
pub open spec fn opt_text(value: Option<&str>) -> Option<Seq<char>> {
    match value {
        Some(text) => Some(text@),
        None => None,
    }
}

/// A lookup past the end of a longer object looks at its last entry first.
pub broadcast proof fn lemma_lookup_push(
    entries: Entries,
    entry: (Seq<char>, JsonView),
    key: Seq<char>,
)
    ensures
        #[trigger] lookup(entries.push(entry), key) == (if entry.0 == key {
            Some(entry.1)
        } else {
            lookup(entries, key)
        }),
{
    assert(entries.push(entry).drop_last() =~= entries);
}

pub broadcast proof fn lemma_lookup_empty(key: Seq<char>)
    ensures
        #[trigger] lookup(Seq::empty(), key) is None,
{
}

/// A key is found exactly where some entry has it.
pub proof fn lemma_lookup_absent(entries: Entries, key: Seq<char>)
    ensures
        lookup(entries, key) is None <==> (forall|i: int|
            0 <= i < entries.len() ==> (#[trigger] entries[i]).0 != key),
    decreases entries.len(),
{
    if entries.len() > 0 {
        let rest = entries.drop_last();
        lemma_lookup_absent(rest, key);
        if lookup(entries, key) is None {
            assert forall|i: int| 0 <= i < entries.len() implies (#[trigger] entries[i]).0 != key by {
                if i < rest.len() {
                    assert(rest[i] == entries[i]);
                }
            }
        } else {
            if entries.last().0 != key {
                let i = choose|i: int| 0 <= i < rest.len() && (#[trigger] rest[i]).0 == key;
                assert(entries[i].0 == key);
            } else {
                assert(entries[entries.len() - 1].0 == key);
            }
        }
    }
}

/// Where no key occurs twice, the value under an entry's key is that entry's.
pub proof fn lemma_lookup_at(entries: Entries, at: int)
    requires
        distinct_keys(entries),
        0 <= at < entries.len(),
    ensures
        lookup(entries, entries[at].0) == Some(entries[at].1),
    decreases entries.len(),
{
    if at < entries.len() - 1 {
        assert(entries[entries.len() - 1].0 != entries[at].0);
        assert(distinct_keys(entries.drop_last()));
        lemma_lookup_at(entries.drop_last(), at);
    }
}

/// Replacing a value keeps the keys and their order.
pub proof fn lemma_replace(entries: Entries, key: Seq<char>, value: JsonView)
    ensures
        replace(entries, key, value).len() == entries.len(),
        forall|i: int|
            0 <= i < entries.len() ==> (#[trigger] replace(entries, key, value)[i]).0
                == entries[i].0,
    decreases entries.len(),
{
    if entries.len() > 0 {
        lemma_replace(entries.drop_last(), key, value);
    }
}

/// After an insertion the key has the new value, and every other key has what it had.
pub broadcast proof fn lemma_lookup_insert(
    entries: Entries,
    key: Seq<char>,
    value: JsonView,
    other: Seq<char>,
)
    ensures
        #[trigger] lookup(insert(entries, key, value), other) == (if other == key {
            Some(value)
        } else {
            lookup(entries, other)
        }),
    decreases entries.len(),
{
    if lookup(entries, key) is Some {
        lemma_lookup_replace(entries, key, value, other);
    } else {
        lemma_lookup_push(entries, (key, value), other);
    }
}

pub proof fn lemma_lookup_replace(
    entries: Entries,
    key: Seq<char>,
    value: JsonView,
    other: Seq<char>,
)
    requires
        lookup(entries, key) is Some,
    ensures
        lookup(replace(entries, key, value), other) == (if other == key {
            Some(value)
        } else {
            lookup(entries, other)
        }),
    decreases entries.len(),
{
    if entries.len() > 0 {
        let rest = entries.drop_last();
        if entries.last().0 == key {
            lemma_lookup_push(rest, (key, value), other);
        } else {
            lemma_lookup_push(replace(rest, key, value), entries.last(), other);
            lemma_lookup_replace(rest, key, value, other);
        }
    }
}

pub proof fn lemma_insert_distinct(entries: Entries, key: Seq<char>, value: JsonView)
    requires
        distinct_keys(entries),
    ensures
        distinct_keys(insert(entries, key, value)),
{
    lemma_lookup_absent(entries, key);
    lemma_replace(entries, key, value);
}

/// Dropping a key drops nothing else.
pub broadcast proof fn lemma_lookup_without(entries: Entries, key: Seq<char>, other: Seq<char>)
    ensures
        #[trigger] lookup(without(entries, key), other) == (if other == key {
            None
        } else {
            lookup(entries, other)
        }),
    decreases entries.len(),
{
    if entries.len() > 0 {
        let rest = entries.drop_last();
        lemma_lookup_without(rest, key, other);
        if entries.last().0 != key {
            lemma_lookup_push(without(rest, key), entries.last(), other);
        }
    }
}

pub broadcast group group_lookup {
    lemma_lookup_push,
    lemma_lookup_empty,
    lemma_lookup_insert,
    lemma_lookup_without,
}

impl Object {
    #[verifier::type_invariant]
    pub open spec fn keys_distinct(self) -> bool {
        distinct_keys(self@)
    }

    /// The object without entries.
    pub fn new() -> (object: Object)
        ensures
            object@ == Entries::empty(),
    {
        let object = Object { entries: Vec::new() };
        assert(object@ =~= Entries::empty());
        object
    }

    /// An object from entries whose keys differ.
    pub(crate) fn from_entries(entries: Vec<(String, Json)>) -> (object: Object)
        requires
            forall|i: int, j: int|
                0 <= i < j < entries@.len() ==> (#[trigger] entries@[i]).0@ != (
                #[trigger] entries@[j]).0@,
        ensures
            object@.len() == entries@.len(),
            forall|i: int|
                0 <= i < entries@.len() ==> #[trigger] object@[i] == (
                    entries@[i].0@,
                    entries@[i].1@,
                ),
    {
        Object { entries }
    }

    pub fn len(&self) -> (len: usize)
        ensures
            len == self@.len(),
    {
        self.entries.len()
    }

    /// The entry at a position.
    pub fn entry(&self, at: usize) -> (entry: (&String, &Json))
        requires
            at < self@.len(),
        ensures
            (entry.0@, entry.1@) == self@[at as int],
    {
        (&self.entries[at].0, &self.entries[at].1)
    }

    /// The position of a key.
    fn position(&self, key: &str) -> (at: Option<usize>)
        ensures
            match at {
                Some(i) => {
                    &&& i < self@.len()
                    &&& self@[i as int].0 == key@
                    &&& lookup(self@, key@) == Some(self@[i as int].1)
                },
                None => lookup(self@, key@) is None,
            },
    {
        let mut i: usize = self.entries.len();
        assert(self@.take(i as int) =~= self@);
        while i > 0
            invariant
                i <= self.entries@.len(),
                self@.len() == self.entries@.len(),
                lookup(self@, key@) == lookup(self@.take(i as int), key@),
            decreases i,
        {
            assert(self@.take(i as int).drop_last() =~= self@.take(i - 1));
            i -= 1;
            if text::same(self.entries[i].0.as_str(), key) {
                return Some(i);
            }
        }
        None
    }

    /// The value under a key.
    pub fn get(&self, key: &str) -> (value: Option<&Json>)
        ensures
            opt_view(value) == lookup(self@, key@),
    {
        match self.position(key) {
            Some(i) => Some(&self.entries[i].1),
            None => None,
        }
    }

    pub fn contains_key(&self, key: &str) -> (result: bool)
        ensures
            result == (lookup(self@, key@) is Some),
    {
        self.position(key).is_some()
    }

    /// The object after `key` is set to `value`.
    pub fn insert(self, key: &str, value: Json) -> (object: Object)
        ensures
            object@ == crate::json::insert(self@, key@, value@),
    {
        proof {
            use_type_invariant(&self);
            lemma_insert_distinct(self@, key@, value@);
        }
        let at = self.position(key);
        let ghost before = self@;
        let mut entries = self.entries;
        match at {
            Some(i) => {
                proof {
                    lemma_replace_at(before, i as int, value@);
                }
                let name = key.to_owned();
                entries.set(i, (name, value));
                assert((Object { entries })@ =~= replace(before, key@, value@));
                Object { entries }
            },
            None => {
                entries.push((key.to_owned(), value));
                assert((Object { entries })@ =~= before.push((key@, value@)));
                Object { entries }
            },
        }
    }
}

impl Object {
    /// The object with an entry added at the end, under a key that it does not have.
    pub fn add(self, key: &str, value: Json) -> (object: Object)
        requires
            lookup(self@, key@) is None,
        ensures
            object@ == self@.push((key@, value@)),
    {
        self.insert(key, value)
    }

    /// The object after the entries of another are set one by one.
    pub fn extend(self, more: &Object) -> (object: Object)
        ensures
            object@ == crate::json::extend(self@, more@),
    {
        let ghost start = self@;
        let mut object = self;
        let mut i: usize = 0;
        assert(more@.take(0) =~= Entries::empty());
        while i < more.len()
            invariant
                i <= more@.len(),
                object@ == crate::json::extend(start, more@.take(i as int)),
            decreases more@.len() - i,
        {
            assert(more@.take(i + 1).drop_last() =~= more@.take(i as int));
            let (key, value) = more.entry(i);
            object = object.insert(key.as_str(), value.clone());
            i += 1;
        }
        assert(more@.take(i as int) =~= more@);
        object
    }

    /// The object without the entry under a key.
    pub fn remove(self, key: &str) -> (object: Object)
        ensures
            object@ == without(self@, key@),
    {
        proof {
            use_type_invariant(&self);
        }
        let mut kept: Vec<(String, Json)> = Vec::new();
        let mut i: usize = 0;
        assert((Object { entries: kept })@ =~= without(self@.take(0), key@));
        while i < self.entries.len()
            invariant
                i <= self.entries@.len(),
                self@.len() == self.entries@.len(),
                distinct_keys(self@),
                (Object { entries: kept })@ == without(self@.take(i as int), key@),
            decreases self.entries@.len() - i,
        {
            assert(self@.take(i + 1).drop_last() =~= self@.take(i as int));
            if !text::same(self.entries[i].0.as_str(), key) {
                let ghost before = (Object { entries: kept })@;
                kept.push((self.entries[i].0.clone(), self.entries[i].1.clone()));
                assert((Object { entries: kept })@ =~= before.push(self@[i as int]));
            }
            i += 1;
        }
        assert(self@.take(i as int) =~= self@);
        proof {
            lemma_without_distinct(self@, key@);
        }
        Object { entries: kept }
    }
}

pub proof fn lemma_without_distinct(entries: Entries, key: Seq<char>)
    requires
        distinct_keys(entries),
    ensures
        distinct_keys(without(entries, key)),
    decreases entries.len(),
{
    if entries.len() > 0 {
        let rest = entries.drop_last();
        assert(distinct_keys(rest));
        lemma_without_distinct(rest, key);
        if entries.last().0 != key {
            lemma_lookup_absent(rest, entries.last().0);
            lemma_lookup_without(rest, key, entries.last().0);
            lemma_lookup_absent(without(rest, key), entries.last().0);
        }
    }
}

impl Clone for Float {
    fn clone(&self) -> (copy: Float)
        ensures
            copy.tree() == self.tree(),
    {
        proof {
            use_type_invariant(self);
        }
        Float { value: self.value.clone() }
    }
}

impl Clone for Json {
    fn clone(&self) -> (copy: Json)
        ensures
            copy@ == self@,
        decreases self,
    {
        match self {
            Json::Null => Json::Null,
            Json::Bool(b) => Json::Bool(*b),
            Json::Unsigned(n) => Json::Unsigned(*n),
            Json::Signed(n) => Json::Signed(*n),
            Json::Float(float) => Json::Float(float.clone()),
            Json::Text(text) => Json::Text(text.clone()),
            Json::Array(items) => {
                let mut copies: Vec<Json> = Vec::new();
                let mut i: usize = 0;
                while i < items.len()
                    invariant
                        i <= items@.len(),
                        copies@.len() == i,
                        self matches Json::Array(held) && held == items,
                        forall|j: int| 0 <= j < i ==> (#[trigger] copies@[j])@ == items@[j]@,
                    decreases items@.len() - i,
                {
                    copies.push(items[i].clone());
                    i += 1;
                }
                assert(items_view(copies) =~= items_view(*items));
                Json::Array(copies)
            },
            Json::Object(object) => {
                proof {
                    use_type_invariant(object);
                }
                let mut copies: Vec<(String, Json)> = Vec::new();
                let mut i: usize = 0;
                while i < object.entries.len()
                    invariant
                        i <= object.entries@.len(),
                        copies@.len() == i,
                        self matches Json::Object(held) && held == object,
                        forall|j: int|
                            0 <= j < i ==> (#[trigger] copies@[j]).0@ == object.entries@[j].0@
                                && copies@[j].1@ == object.entries@[j].1@,
                    decreases object.entries@.len() - i,
                {
                    copies.push((object.entries[i].0.clone(), object.entries[i].1.clone()));
                    i += 1;
                }
                assert((Object { entries: copies })@ =~= object@);
                Json::Object(Object { entries: copies })
            },
        }
    }
}

impl Clone for Object {
    fn clone(&self) -> (copy: Object)
        ensures
            copy@ == self@,
    {
        proof {
            use_type_invariant(self);
        }
        let mut copies: Vec<(String, Json)> = Vec::new();
        let mut i: usize = 0;
        while i < self.entries.len()
            invariant
                i <= self.entries@.len(),
                copies@.len() == i,
                forall|j: int|
                    0 <= j < i ==> (#[trigger] copies@[j]).0@ == self.entries@[j].0@
                        && copies@[j].1@ == self.entries@[j].1@,
            decreases self.entries@.len() - i,
        {
            copies.push((self.entries[i].0.clone(), self.entries[i].1.clone()));
            i += 1;
        }
        assert((Object { entries: copies })@ =~= self@);
        Object { entries: copies }
    }
}

impl Json {
    /// A text value.
    pub fn text(text: &str) -> (json: Json)
        ensures
            json@ == JsonView::Text(text@),
    {
        Json::Text(text.to_owned())
    }

    /// An array of the values.
    pub fn array(items: Vec<Json>) -> (json: Json)
        ensures
            json@ == JsonView::Array(views(items@)),
    {
        assert(items_view(items) =~= views(items@));
        Json::Array(items)
    }

    /// An array of copies of the values.
    pub fn array_of(items: &[Json]) -> (json: Json)
        ensures
            json@ == JsonView::Array(views(items@)),
    {
        Json::array(copy_all(items))
    }

    /// A text, or null where there is none.
    pub fn text_or_null(value: &Option<String>) -> (json: Json)
        ensures
            json@ == crate::json::text_or_null(text::opt(*value)),
    {
        match value {
            Some(text) => Json::Text(text.clone()),
            None => Json::Null,
        }
    }

    /// An optional text member of an object; the error is for a value that is no text.
    pub fn text_member(value: Option<&Json>) -> (result: Result<Option<String>, ()>)
        ensures
            match result {
                Ok(text) => crate::json::text_member(opt_view(value)) == Some(text::opt(text)),
                Err(_) => crate::json::text_member(opt_view(value)) is None,
            },
    {
        match value {
            None => Ok(None),
            Some(json) => if json.is_null() {
                Ok(None)
            } else {
                match json.as_str() {
                    Some(text) => Ok(Some(text.to_owned())),
                    None => Err(()),
                }
            },
        }
    }

    pub fn is_null(&self) -> (result: bool)
        ensures
            result == (self@ is Null),
    {
        proof {
            if let Json::Float(float) = self {
                use_type_invariant(float);
            }
        }
        match self {
            Json::Null => true,
            _ => false,
        }
    }

    pub fn is_number(&self) -> (result: bool)
        ensures
            result == (self@ is Unsigned || self@ is Negative || self@ is Float),
    {
        match self {
            Json::Unsigned(_) => true,
            Json::Signed(_) => true,
            Json::Float(float) => {
                proof {
                    use_type_invariant(float);
                }
                true
            },
            _ => false,
        }
    }

    pub fn as_bool(&self) -> (result: Option<bool>)
        ensures
            result == (match self@ {
                JsonView::Bool(b) => Some(b),
                _ => None,
            }),
    {
        match self {
            Json::Bool(b) => Some(*b),
            Json::Float(float) => {
                proof {
                    use_type_invariant(float);
                }
                None
            },
            _ => None,
        }
    }

    pub fn is_object(&self) -> (result: bool)
        ensures
            result == (self@ is Object),
    {
        self.as_object().is_some()
    }

    pub fn as_object(&self) -> (object: Option<&Object>)
        ensures
            match object {
                Some(object) => self@ == JsonView::Object(object@),
                None => self@ !is Object,
            },
    {
        match self {
            Json::Object(object) => Some(object),
            Json::Float(float) => {
                proof {
                    use_type_invariant(float);
                }
                None
            },
            _ => None,
        }
    }

    pub fn as_array(&self) -> (items: Option<&Vec<Json>>)
        ensures
            match items {
                Some(items) => self@ == JsonView::Array(views(items@)),
                None => self@.as_array() is None,
            },
    {
        match self {
            Json::Array(items) => {
                assert(items_view(*items) =~= views(items@));
                Some(items)
            },
            Json::Float(float) => {
                proof {
                    use_type_invariant(float);
                }
                None
            },
            _ => None,
        }
    }

    pub fn as_str(&self) -> (text: Option<&str>)
        ensures
            opt_text(text) == self@.as_str(),
    {
        match self {
            Json::Text(text) => Some(text.as_str()),
            Json::Float(float) => {
                proof {
                    use_type_invariant(float);
                }
                None
            },
            _ => None,
        }
    }

    pub fn as_u64(&self) -> (number: Option<u64>)
        ensures
            number == self@.as_u64(),
    {
        match self {
            Json::Unsigned(n) => Some(*n),
            Json::Signed(n) => if *n >= 0 {
                Some(*n as u64)
            } else {
                None
            },
            Json::Float(float) => {
                proof {
                    use_type_invariant(float);
                }
                None
            },
            _ => None,
        }
    }

    /// The member `key` of an object; nothing for any other value.
    pub fn get(&self, key: &str) -> (value: Option<&Json>)
        ensures
            opt_view(value) == self@.get(key@),
    {
        match self.as_object() {
            Some(object) => object.get(key),
            None => None,
        }
    }

    /// The text under `key`, if there is text under it.
    pub fn get_str(&self, key: &str) -> (text: Option<&str>)
        ensures
            opt_text(text) == self@.get_str(key@),
    {
        match self.get(key) {
            Some(value) => value.as_str(),
            None => None,
        }
    }

    /// The unsigned integer under `key`, if there is one under it.
    pub fn get_u64(&self, key: &str) -> (number: Option<u64>)
        ensures
            number == self@.get_u64(key@),
    {
        match self.get(key) {
            Some(value) => value.as_u64(),
            None => None,
        }
    }

    /// The array under `key`, if there is one under it.
    pub fn get_array(&self, key: &str) -> (items: Option<&Vec<Json>>)
        ensures
            match items {
                Some(items) => self@.get_array(key@) == Some(views(items@)),
                None => self@.get_array(key@) is None,
            },
    {
        match self.get(key) {
            Some(value) => value.as_array(),
            None => None,
        }
    }
}

pub proof fn lemma_item_below(tree: JsonView, at: int)
    requires
        tree is Array,
        0 <= at < tree->Array_0.len(),
    ensures
        decreases_to!(tree => tree->Array_0[at]),
{
}

pub proof fn lemma_entry_below(tree: JsonView, at: int)
    requires
        tree is Object,
        0 <= at < tree->Object_0.len(),
    ensures
        decreases_to!(tree => tree->Object_0[at].1),
{
}

/// A member of an object is smaller than the object.
pub proof fn lemma_member_below(tree: JsonView, key: Seq<char>)
    ensures
        tree.get(key) is Some ==> decreases_to!(tree => tree.get(key)->0),
{
    if let JsonView::Object(entries) = tree {
        if lookup(entries, key) is Some {
            let at = lookup_position(entries, key);
            lemma_lookup_position(entries, key);
            lemma_entry_below(tree, at);
        }
    }
}

/// Where the entry that a lookup finds stands.
spec fn lookup_position(entries: Entries, key: Seq<char>) -> int
    decreases entries.len(),
{
    if entries.len() == 0 {
        -1
    } else if entries.last().0 == key {
        entries.len() - 1
    } else {
        lookup_position(entries.drop_last(), key)
    }
}

proof fn lemma_lookup_position(entries: Entries, key: Seq<char>)
    requires
        lookup(entries, key) is Some,
    ensures
        0 <= lookup_position(entries, key) < entries.len(),
        entries[lookup_position(entries, key)].1 == lookup(entries, key)->0,
    decreases entries.len(),
{
    if entries.last().0 != key {
        lemma_lookup_position(entries.drop_last(), key);
    }
}

impl Json {
    /// The value of `serde_json` as a tree of the library's own.
    pub fn from_value(value: serde_json::Value) -> (json: Json)
        ensures
            json@ == bridge::value_tree(value),
        decreases bridge::value_tree(value),
    {
        let ghost tree = bridge::value_tree(value);
        match bridge::open_value(value) {
            Layer::Null => Json::Null,
            Layer::Bool(b) => Json::Bool(b),
            Layer::Unsigned(n) => Json::Unsigned(n),
            Layer::Negative(n) => Json::Signed(n),
            Layer::Float(value) => Json::Float(Float { value }),
            Layer::Text(text) => Json::Text(text),
            Layer::Array(items) => {
                let mut out: Vec<Json> = Vec::new();
                for item in it: items
                    invariant
                        tree == bridge::value_tree(value),
                        it.seq() == items@,
                        tree == (Layer::Array(items)).tree(),
                        out@.len() == it.index(),
                        forall|i: int|
                            0 <= i < out@.len() ==> (#[trigger] out@[i])@ == tree->Array_0[i],
                {
                    proof {
                        lemma_item_below(tree, it.index() as int);
                    }
                    out.push(Json::from_value(item));
                }
                assert(items_view(out) =~= tree->Array_0);
                Json::Array(out)
            },
            Layer::Object(entries) => {
                let mut out: Vec<(String, Json)> = Vec::new();
                for entry in it: entries
                    invariant
                        tree == bridge::value_tree(value),
                        it.seq() == entries@,
                        tree == (Layer::Object(entries)).tree(),
                        out@.len() == it.index(),
                        forall|i: int|
                            0 <= i < out@.len() ==> (
                                (#[trigger] out@[i]).0@,
                                out@[i].1@,
                            ) == tree->Object_0[i],
                {
                    proof {
                        lemma_entry_below(tree, it.index() as int);
                    }
                    let (key, member) = entry;
                    out.push((key, Json::from_value(member)));
                }
                proof {
                    assert forall|i: int, j: int| 0 <= i < j < out@.len() implies (
                    #[trigger] out@[i]).0@ != (#[trigger] out@[j]).0@ by {
                        assert(entries@[i].0@ != entries@[j].0@);
                    }
                }
                let object = Object::from_entries(out);
                assert(object@ =~= tree->Object_0);
                Json::Object(object)
            },
        }
    }

    /// The tree as a value of `serde_json`.
    pub fn to_value(&self) -> (value: serde_json::Value)
        ensures
            bridge::value_tree(value) == self@,
        decreases self,
    {
        let layer = match self {
            Json::Null => Layer::Null,
            Json::Bool(b) => Layer::Bool(*b),
            Json::Unsigned(n) => Layer::Unsigned(*n),
            Json::Signed(n) => if *n >= 0 {
                Layer::Unsigned(*n as u64)
            } else {
                Layer::Negative(*n)
            },
            Json::Float(float) => {
                proof {
                    use_type_invariant(float);
                }
                Layer::Float(float.value.clone())
            },
            Json::Text(text) => Layer::Text(text.clone()),
            Json::Array(items) => {
                let mut out: Vec<serde_json::Value> = Vec::new();
                let mut i: usize = 0;
                while i < items.len()
                    invariant
                        i <= items@.len(),
                        out@.len() == i,
                        self matches Json::Array(held) && held == items,
                        forall|j: int| 0 <= j < i ==> bridge::value_tree(#[trigger] out@[j]) == items@[j]@,
                    decreases items@.len() - i,
                {
                    out.push(items[i].to_value());
                    i += 1;
                }
                assert((Layer::Array(out)).tree()->Array_0 =~= items_view(*items));
                Layer::Array(out)
            },
            Json::Object(object) => {
                proof {
                    use_type_invariant(object);
                }
                let mut out: Vec<(String, serde_json::Value)> = Vec::new();
                let mut i: usize = 0;
                while i < object.entries.len()
                    invariant
                        i <= object.entries@.len(),
                        object@.len() == object.entries@.len(),
                        out@.len() == i,
                        self matches Json::Object(held) && held == object,
                        forall|j: int|
                            0 <= j < i ==> (
                                (#[trigger] out@[j]).0@,
                                bridge::value_tree(out@[j].1),
                            ) == object@[j],
                    decreases object.entries@.len() - i,
                {
                    out.push((object.entries[i].0.clone(), object.entries[i].1.to_value()));
                    i += 1;
                }
                assert((Layer::Object(out)).tree()->Object_0 =~= object@);
                proof {
                    assert forall|i: int, j: int| 0 <= i < j < out@.len() implies (
                    #[trigger] out@[i]).0@ != (#[trigger] out@[j]).0@ by {
                        assert(object@[i].0 != object@[j].0);
                    }
                }
                Layer::Object(out)
            },
        };
        bridge::close_value(layer)
    }
}

/// Copies of the values.
pub fn copy_all(items: &[Json]) -> (copies: Vec<Json>)
    ensures
        views(copies@) == views(items@),
{
    let mut copies: Vec<Json> = Vec::new();
    let mut i: usize = 0;
    while i < items.len()
        invariant
            i <= items@.len(),
            copies@.len() == i,
            forall|j: int| 0 <= j < i ==> (#[trigger] copies@[j])@ == items@[j]@,
        decreases items@.len() - i,
    {
        copies.push(items[i].clone());
        i += 1;
    }
    assert(views(copies@) =~= views(items@));
    copies
}

/// Setting a key to what it already has changes nothing.
pub proof fn lemma_insert_same(entries: Entries, key: Seq<char>, value: JsonView)
    requires
        lookup(entries, key) == Some(value),
    ensures
        insert(entries, key, value) == entries,
    decreases entries.len(),
{
    let rest = entries.drop_last();
    if entries.last().0 != key {
        lemma_insert_same(rest, key, value);
    }
    assert(rest.push(entries.last()) =~= entries);
    assert(replace(entries, key, value) =~= entries);
}

/// Where the keys of both differ, setting the entries of the one adds them at the end.
pub proof fn lemma_extend_disjoint(entries: Entries, more: Entries)
    requires
        distinct_keys(more),
        forall|i: int, j: int|
            0 <= i < entries.len() && 0 <= j < more.len() ==> (#[trigger] entries[i]).0 != (
            #[trigger] more[j]).0,
    ensures
        extend(entries, more) == entries + more,
    decreases more.len(),
{
    if more.len() == 0 {
        assert(entries + more =~= entries);
    } else {
        let rest = more.drop_last();
        assert(distinct_keys(rest));
        assert forall|i: int, j: int|
            0 <= i < entries.len() && 0 <= j < rest.len() implies (#[trigger] entries[i]).0 != (
        #[trigger] rest[j]).0 by {
            assert(rest[j] == more[j]);
        }
        lemma_extend_disjoint(entries, rest);
        lemma_lookup_absent(entries + rest, more.last().0);
        assert forall|i: int| 0 <= i < (entries + rest).len() implies (#[trigger] (entries
            + rest)[i]).0 != more.last().0 by {
            assert(more.last() == more[more.len() - 1]);
            if i < entries.len() {
                assert(entries[i].0 != more[more.len() - 1].0);
            } else {
                assert(more[i - entries.len()].0 != more[more.len() - 1].0);
            }
        }
        assert((entries + rest).push(more.last()) =~= entries + more);
    }
}

/// Dropping a key from entries that follow one another drops it from each.
pub proof fn lemma_without_add(entries: Entries, more: Entries, key: Seq<char>)
    ensures
        without(entries + more, key) == without(entries, key) + without(more, key),
    decreases more.len(),
{
    if more.len() == 0 {
        assert(entries + more =~= entries);
        assert(without(entries, key) + without(more, key) =~= without(entries, key));
    } else {
        assert((entries + more).drop_last() =~= entries + more.drop_last());
        lemma_without_add(entries, more.drop_last(), key);
        assert(without(entries + more, key) =~= without(entries, key) + without(more, key));
    }
}

/// Dropping a key that is not there drops nothing.
pub proof fn lemma_without_absent(entries: Entries, key: Seq<char>)
    requires
        lookup(entries, key) is None,
    ensures
        without(entries, key) == entries,
    decreases entries.len(),
{
    if entries.len() > 0 {
        lemma_without_absent(entries.drop_last(), key);
        assert(entries.drop_last().push(entries.last()) =~= entries);
    }
}

/// A longer object has every key that a shorter part of it has.
pub proof fn lemma_lookup_prefix(entries: Entries, n: int, key: Seq<char>)
    requires
        0 <= n <= entries.len(),
        lookup(entries, key) is None,
    ensures
        lookup(entries.take(n), key) is None,
{
    lemma_lookup_absent(entries, key);
    lemma_lookup_absent(entries.take(n), key);
}

/// Where no key occurs twice, replacing the value under a key changes the one entry with it.
pub proof fn lemma_replace_at(entries: Entries, at: int, value: JsonView)
    requires
        distinct_keys(entries),
        0 <= at < entries.len(),
    ensures
        replace(entries, entries[at].0, value) == entries.update(at, (entries[at].0, value)),
    decreases entries.len(),
{
    let key = entries[at].0;
    if at < entries.len() - 1 {
        assert(entries[entries.len() - 1].0 != key);
        assert(distinct_keys(entries.drop_last()));
        lemma_replace_at(entries.drop_last(), at, value);
    }
    assert(replace(entries, key, value) =~= entries.update(at, (key, value)));
}

impl Json {
    /// A record by the names of its members.
    pub fn by_name(&self, names: &[&str], least: usize) -> (record: Json)
        ensures
            record@ == crate::json::by_name(self@, name_views(names@), least as nat),
    {
        let items = match self.as_array() {
            Some(items) => items,
            None => return self.clone(),
        };
        if items.len() < least || items.len() > names.len() {
            return self.clone();
        }
        let ghost all = views(items@);
        let mut object = Object::new();
        let mut i: usize = 0;
        assert(all.take(0) =~= Seq::empty());
        while i < items.len()
            invariant
                i <= items@.len() <= names@.len(),
                all == views(items@),
                object@ == named(name_views(names@), all.take(i as int)),
            decreases items@.len() - i,
        {
            assert(all.take(i + 1).drop_last() =~= all.take(i as int));
            assert(all[i as int] == items@[i as int]@);
            object = object.insert(names[i], items[i].clone());
            i += 1;
        }
        assert(all.take(i as int) =~= all);
        Json::Object(object)
    }

    /// The kind of a record of one of several kinds, and the record without it.
    pub fn by_kind(&self, tag: &str) -> (result: Option<(String, Json)>)
        ensures
            match result {
                Some((kind, record)) => crate::json::by_kind(self@, tag@) == Some(
                    (kind@, record@),
                ),
                None => crate::json::by_kind(self@, tag@) is None,
            },
    {
        if let Some(items) = self.as_array() {
            if items.len() == 0 {
                return None;
            }
            assert(views(items@)[0] == items@[0]@);
            return match items[0].as_str() {
                Some(kind) => {
                    let rest = copy_all(vstd::slice::slice_subrange(items.as_slice(), 1, items.len()));
                    assert(views(rest@) =~= views(items@).skip(1));
                    Some((kind.to_owned(), Json::array(rest)))
                },
                None => None,
            };
        }
        match self.get_str(tag) {
            Some(kind) => Some((kind.to_owned(), self.clone())),
            None => None,
        }
    }
}

/// What is set later counts: under each key the last of the further entries, else what there
/// was.
pub proof fn law_lookup_extend(entries: Entries, more: Entries, key: Seq<char>)
    ensures
        lookup(extend(entries, more), key) == (match lookup(more, key) {
            Some(value) => Some(value),
            None => lookup(entries, key),
        }),
    decreases more.len(),
{
    if more.len() > 0 {
        law_lookup_extend(entries, more.drop_last(), key);
        lemma_lookup_insert(
            extend(entries, more.drop_last()),
            more.last().0,
            more.last().1,
            key,
        );
    }
}

/// What is under a key is the value of the last entry that has it; there is nothing under a key
/// that no entry has.
pub proof fn law_lookup_finds_the_last(entries: Entries, key: Seq<char>)
    ensures
        match lookup(entries, key) {
            Some(value) => exists|at: int|
                0 <= at < entries.len() && #[trigger] entries[at] == (key, value) && (forall|
                    later: int,
                |
                    at < later < entries.len() ==> (#[trigger] entries[later]).0 != key),
            None => forall|at: int| 0 <= at < entries.len() ==> (#[trigger] entries[at]).0 != key,
        },
    decreases entries.len(),
{
    if entries.len() > 0 {
        let rest = entries.drop_last();
        let end = entries.len() - 1;
        if entries.last().0 == key {
            assert(entries[end] == (key, entries.last().1));
        } else {
            law_lookup_finds_the_last(rest, key);
            if let Some(value) = lookup(entries, key) {
                let at = choose|at: int|
                    0 <= at < rest.len() && #[trigger] rest[at] == (key, value) && (forall|
                        later: int,
                    |
                        at < later < rest.len() ==> (#[trigger] rest[later]).0 != key);
                assert(entries[at] == (key, value));
                assert forall|later: int| at < later < entries.len() implies (
                #[trigger] entries[later]).0 != key by {
                    if later < end {
                        assert(rest[later] == entries[later]);
                    }
                }
            } else {
                assert forall|at: int| 0 <= at < entries.len() implies (#[trigger] entries[at]).0
                    != key by {
                    if at < end {
                        assert(rest[at] == entries[at]);
                    }
                }
            }
        }
    }
}

/// Setting a key leaves all other entries and their places. A new key comes last.
pub proof fn law_insert_keeps_places(entries: Entries, key: Seq<char>, value: JsonView)
    ensures
        (forall|i: int| 0 <= i < entries.len() ==> (#[trigger] entries[i]).0 != key) ==> insert(
            entries,
            key,
            value,
        ) == entries.push((key, value)),
        (exists|i: int| 0 <= i < entries.len() && (#[trigger] entries[i]).0 == key) ==> insert(
            entries,
            key,
            value,
        ).len() == entries.len(),
        forall|i: int|
            0 <= i < entries.len() ==> (#[trigger] insert(entries, key, value)[i]).0
                == entries[i].0,
        forall|i: int|
            0 <= i < entries.len() && entries[i].0 != key ==> #[trigger] insert(
                entries,
                key,
                value,
            )[i] == entries[i],
{
    law_lookup_finds_the_last(entries, key);
    lemma_replace(entries, key, value);
    lemma_replace_others(entries, key, value);
}

proof fn lemma_replace_others(entries: Entries, key: Seq<char>, value: JsonView)
    ensures
        replace(entries, key, value).len() == entries.len(),
        forall|i: int|
            0 <= i < entries.len() && entries[i].0 != key ==> #[trigger] replace(
                entries,
                key,
                value,
            )[i] == entries[i],
    decreases entries.len(),
{
    if entries.len() > 0 {
        lemma_replace_others(entries.drop_last(), key, value);
    }
}

/// Dropping a key leaves all other entries in their order.
pub proof fn law_without_keeps_the_order(entries: Entries, key: Seq<char>)
    ensures
        without(entries, key) == entries.filter(|entry: (Seq<char>, JsonView)| entry.0 != key),
    decreases entries.len(),
{
    reveal(Seq::filter);
    if entries.len() > 0 {
        law_without_keeps_the_order(entries.drop_last(), key);
    } else {
        let keep = |entry: (Seq<char>, JsonView)| entry.0 != key;
        assert(entries.filter(keep) =~= entries);
    }
}

} // verus!
