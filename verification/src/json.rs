//! JSON messages as plain values.

use crate::text::same_text;
use vstd::prelude::*;

verus! {

/// A JSON message. Numbers are kept as far as the handshake and fetch
/// protocols read them: integers exactly, anything else as `Real`.
#[derive(Debug)]
pub enum Json {
    Null,
    Bool(bool),
    Integer(i128),
    /// A number that is no integer, or beyond 64 bits.
    Real,
    Text(String),
    Array(Vec<Json>),
    /// Where a key occurs more than once, its last entry counts.
    Object(Vec<(String, Json)>),
}

/// What a [`Json`] stands for: an object is a map, so the order of its entries
/// carries no meaning.
#[verifier::ext_equal]
pub enum JsonView {
    Null,
    Bool(bool),
    Integer(int),
    Real,
    Text(Seq<char>),
    Array(Seq<JsonView>),
    Object(Map<Seq<char>, JsonView>),
}

impl View for Json {
    type V = JsonView;

    open spec fn view(&self) -> JsonView
        decreases self,
    {
        match self {
            Json::Null => JsonView::Null,
            Json::Bool(b) => JsonView::Bool(*b),
            Json::Integer(n) => JsonView::Integer(*n as int),
            Json::Real => JsonView::Real,
            Json::Text(s) => JsonView::Text(s@),
            Json::Array(items) => JsonView::Array(items_view(items@)),
            Json::Object(entries) => JsonView::Object(entries_view(entries@)),
        }
    }
}

/// The items of an array, in order.
pub open spec fn items_view(items: Seq<Json>) -> Seq<JsonView>
    decreases items,
{
    if items.len() == 0 {
        Seq::empty()
    } else {
        items_view(items.drop_last()).push(items.last().view())
    }
}

/// The entries of an object: a later entry replaces an earlier one of the same key.
pub open spec fn entries_view(entries: Seq<(String, Json)>) -> Map<Seq<char>, JsonView>
    decreases entries,
{
    if entries.len() == 0 {
        Map::empty()
    } else {
        entries_view(entries.drop_last()).insert(entries.last().0@, entries.last().1.view())
    }
}

impl JsonView {
    /// The entry of an object under a key; `None` for anything but an object.
    pub open spec fn get(self, key: Seq<char>) -> Option<JsonView> {
        match self {
            JsonView::Object(m) => if m.contains_key(key) {
                Some(m[key])
            } else {
                None
            },
            _ => None,
        }
    }

    /// The integer, where it fits.
    pub open spec fn as_i64(self) -> Option<i64> {
        match self {
            JsonView::Integer(n) => if i64::MIN <= n <= i64::MAX {
                Some(n as i64)
            } else {
                None
            },
            _ => None,
        }
    }

    /// The integer, where it is not negative and fits.
    pub open spec fn as_u64(self) -> Option<u64> {
        match self {
            JsonView::Integer(n) => if 0 <= n <= u64::MAX {
                Some(n as u64)
            } else {
                None
            },
            _ => None,
        }
    }

    pub open spec fn as_bool(self) -> Option<bool> {
        match self {
            JsonView::Bool(b) => Some(b),
            _ => None,
        }
    }

    pub open spec fn as_str(self) -> Option<Seq<char>> {
        match self {
            JsonView::Text(s) => Some(s),
            _ => None,
        }
    }
}

/// The view of what a lookup found, if it found anything.
pub open spec fn found(v: Option<&Json>) -> Option<JsonView> {
    match v {
        Some(json) => Some(json@),
        None => None,
    }
}

/// An array's view has the views of its items, index by index.
pub(crate) proof fn lemma_items_view(items: Seq<Json>)
    ensures
        items_view(items).len() == items.len(),
        forall|i: int| 0 <= i < items.len() ==> (#[trigger] items_view(items)[i]) == items[i]@,
    decreases items.len(),
{
    reveal_with_fuel(items_view, 2);
    if items.len() > 0 {
        lemma_items_view(items.drop_last());
    }
}

/// An object without entries holds nothing.
pub(crate) proof fn lemma_no_entries()
    ensures
        entries_view(Seq::empty()) == Map::<Seq<char>, JsonView>::empty(),
{
    reveal_with_fuel(entries_view, 2);
}

/// An array without items holds nothing.
pub(crate) proof fn lemma_no_items()
    ensures
        items_view(Seq::empty()) == Seq::<JsonView>::empty(),
{
    reveal_with_fuel(items_view, 2);
}

/// Adds an entry to those of an object, in place of any under the same key.
pub(crate) fn put(entries: &mut Vec<(String, Json)>, key: &str, value: Json)
    ensures
        entries_view(final(entries)@) == entries_view(old(entries)@).insert(key@, value@),
{
    let ghost before = entries@;
    entries.push((key.to_string(), value));
    proof {
        reveal_with_fuel(entries_view, 2);
        assert(entries@.drop_last() =~= before);
    }
}

/// Adds an item to those of an array, at the end.
pub(crate) fn append(items: &mut Vec<Json>, value: Json)
    ensures
        items_view(final(items)@) == items_view(old(items)@).push(value@),
{
    let ghost before = items@;
    items.push(value);
    proof {
        reveal_with_fuel(items_view, 2);
        assert(items@.drop_last() =~= before);
    }
}

impl Json {
    /// An array of some items.
    pub fn array(items: Vec<Json>) -> (json: Json)
        ensures
            json@ == JsonView::Array(items_view(items@)),
    {
        Json::Array(items)
    }

    /// An object of some entries.
    pub fn object(entries: Vec<(String, Json)>) -> (json: Json)
        ensures
            json@ == JsonView::Object(entries_view(entries@)),
    {
        Json::Object(entries)
    }

    /// Looks a key up in an object. `None` where the key is absent, or where
    /// this is no object.
    pub fn get(&self, key: &str) -> (entry: Option<&Json>)
        ensures
            found(entry) == self@.get(key@),
    {
        if let Json::Object(entries) = self {
            let mut i: usize = entries.len();
            assert(entries@.take(i as int) =~= entries@);
            while i > 0
                invariant
                    i <= entries@.len(),
                    self@ == JsonView::Object(entries_view(entries@)),
                    entries_view(entries@).contains_key(key@) <==> entries_view(
                        entries@.take(i as int),
                    ).contains_key(key@),
                    entries_view(entries@.take(i as int)).contains_key(key@) ==> entries_view(
                        entries@,
                    )[key@] == entries_view(entries@.take(i as int))[key@],
                decreases i,
            {
                let ghost here = entries@.take(i as int);
                proof {
                    reveal_with_fuel(entries_view, 2);
                    assert(here.drop_last() =~= entries@.take(i - 1));
                    assert(here.last() == entries@[i - 1]);
                }
                i -= 1;
                if same_text(entries[i].0.as_str(), key) {
                    return Some(&entries[i].1);
                }
            }
            proof {
                reveal_with_fuel(entries_view, 2);
            }
            None
        } else {
            None
        }
    }

    /// The value as an `i64`, where it is an integer that fits one.
    pub fn as_i64(&self) -> (n: Option<i64>)
        ensures
            n == self@.as_i64(),
    {
        match self {
            Json::Integer(n) => if -0x8000_0000_0000_0000 <= *n && *n <= 0x7fff_ffff_ffff_ffff {
                Some(*n as i64)
            } else {
                None
            },
            _ => None,
        }
    }

    /// The value as a `u64`, where it is an integer that fits one.
    pub fn as_u64(&self) -> (n: Option<u64>)
        ensures
            n == self@.as_u64(),
    {
        match self {
            Json::Integer(n) => if 0 <= *n && *n <= 0xffff_ffff_ffff_ffff {
                Some(*n as u64)
            } else {
                None
            },
            _ => None,
        }
    }

    /// The value as a `bool`, where it is one.
    pub fn as_bool(&self) -> (b: Option<bool>)
        ensures
            b == self@.as_bool(),
    {
        match self {
            Json::Bool(b) => Some(*b),
            _ => None,
        }
    }

    /// The value as text, where it is a string.
    pub fn as_str(&self) -> (s: Option<&str>)
        ensures
            s is Some <==> self@.as_str() is Some,
            s matches Some(text) ==> Some(text@) == self@.as_str(),
    {
        match self {
            Json::Text(s) => Some(s.as_str()),
            _ => None,
        }
    }

    /// The items, where the value is an array.
    pub fn as_array(&self) -> (items: Option<&Vec<Json>>)
        ensures
            items is Some <==> self@ is Array,
            items matches Some(v) ==> self@ == JsonView::Array(items_view(v@)),
    {
        match self {
            Json::Array(items) => Some(items),
            _ => None,
        }
    }

    /// Whether the value is an object.
    pub fn is_object(&self) -> (b: bool)
        ensures
            b == (self@ is Object),
    {
        match self {
            Json::Object(_) => true,
            _ => false,
        }
    }
}

/// A lookup finds what an object holds under the key, and nothing in anything but an
/// object.
pub proof fn law_lookup_is_by_key(json: JsonView, key: Seq<char>)
    ensures
        json.get(key) is Some <==> (json matches JsonView::Object(m) && m.contains_key(key)),
        json matches JsonView::Object(m) ==> m.contains_key(key) ==> json.get(key) == Some(m[key]),
{
}

/// An integer is read where the type holds it, as the integer that it is; a flag and
/// a text are read as they are; and nothing is read as anything else.
pub proof fn law_values_are_read_as_they_are(json: JsonView)
    ensures
        json.as_i64() is Some <==> (json matches JsonView::Integer(n) && i64::MIN <= n <= i64::MAX),
        json.as_i64() matches Some(n) ==> json == JsonView::Integer(n as int),
        json.as_u64() is Some <==> (json matches JsonView::Integer(n) && 0 <= n <= u64::MAX),
        json.as_u64() matches Some(n) ==> json == JsonView::Integer(n as int),
        json.as_bool() matches Some(b) ==> json == JsonView::Bool(b),
        json is Bool ==> json.as_bool() is Some,
        json.as_str() matches Some(s) ==> json == JsonView::Text(s),
        json is Text ==> json.as_str() is Some,
{
}

/// A value stands for itself, an array for its items index by index.
pub proof fn law_view_keeps_everything(b: bool, n: i128, s: String, items: Vec<Json>)
    ensures
        Json::Null@ == JsonView::Null,
        Json::Bool(b)@ == JsonView::Bool(b),
        Json::Integer(n)@ == JsonView::Integer(n as int),
        Json::Text(s)@ == JsonView::Text(s@),
        Json::Array(items)@ matches JsonView::Array(v) && v.len() == items@.len() && (forall|i: int|
            0 <= i < items@.len() ==> (#[trigger] v[i]) == items@[i]@),
{
    lemma_items_view(items@);
}

/// The last entry of a key among some entries.
pub open spec fn is_last_entry(entries: Seq<(String, Json)>, key: Seq<char>, i: int) -> bool {
    &&& 0 <= i < entries.len()
    &&& entries[i].0@ == key
    &&& forall|j: int| i < j < entries.len() ==> (#[trigger] entries[j]).0@ != key
}

/// An object holds a key exactly where an entry has it, with the value of the last.
proof fn lemma_last_entry(entries: Seq<(String, Json)>, key: Seq<char>)
    ensures
        entries_view(entries).contains_key(key) <==> exists|i: int|
            is_last_entry(entries, key, i),
        forall|i: int| #[trigger]
            is_last_entry(entries, key, i) ==> entries_view(entries)[key] == entries[i].1@,
    decreases entries.len(),
{
    reveal_with_fuel(entries_view, 2);
    if entries.len() > 0 {
        let rest = entries.drop_last();
        let last = entries.len() - 1;
        lemma_last_entry(rest, key);
        if entries[last].0@ == key {
            assert(is_last_entry(entries, key, last));
            assert forall|i: int| #[trigger] is_last_entry(entries, key, i) implies i == last by {
                if i < last {
                    assert(entries[last].0@ != key);
                }
            }
        } else {
            assert forall|i: int| is_last_entry(entries, key, i) <==> is_last_entry(
                rest,
                key,
                i,
            ) by {
                if is_last_entry(rest, key, i) {
                    assert(entries[i] == rest[i]);
                    assert forall|j: int| i < j < entries.len() implies (
                    #[trigger] entries[j]).0@ != key by {
                        if j < last {
                            assert(rest[j] == entries[j]);
                        }
                    }
                }
                if is_last_entry(entries, key, i) {
                    assert(i != last);
                    assert(rest[i] == entries[i]);
                    assert forall|j: int| i < j < rest.len() implies (#[trigger] rest[j]).0@
                        != key by {
                        assert(rest[j] == entries[j]);
                    }
                }
            }
            if exists|i: int| is_last_entry(entries, key, i) {
                let i = choose|i: int| is_last_entry(entries, key, i);
                assert(is_last_entry(rest, key, i));
            }
            if exists|i: int| is_last_entry(rest, key, i) {
                let i = choose|i: int| is_last_entry(rest, key, i);
                assert(is_last_entry(entries, key, i));
            }
            assert forall|i: int| #[trigger] is_last_entry(entries, key, i) implies entries_view(
                entries,
            )[key] == entries[i].1@ by {
                assert(is_last_entry(rest, key, i));
            }
        }
    } else {
        assert(forall|i: int| !is_last_entry(entries, key, i));
    }
}

/// Looking a key up gives the value of the last entry that has the key, and nothing
/// exactly where no entry has it.
pub proof fn law_get_finds_the_last_entry(
    json: &Json,
    entries: Vec<(String, Json)>,
    key: &str,
    entry: Option<&Json>,
)
    requires
        call_ensures(Json::get, (json, key), entry),
        *json == Json::Object(entries),
    ensures
        entry is Some <==> exists|i: int| is_last_entry(entries@, key@, i),
        forall|i: int| #[trigger]
            is_last_entry(entries@, key@, i) ==> entry is Some && entry->0@ == entries@[i].1@,
{
    lemma_last_entry(entries@, key@);
    assert(json@ == JsonView::Object(entries_view(entries@)));
}

} // verus!
