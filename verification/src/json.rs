//! A JSON document as the provider payload parsers read it.
//!
//! Objects keep their members in the order the parser walked them; a key occurs at most once.
use vstd::prelude::*;

verus! {

/// What a JSON number can be read as.
#[derive(Debug, Clone)]
pub struct JsonNumber {
    /// The value, when it is a non-negative integer that fits in a `u64`.
    pub as_u64: Option<u64>,
    /// The value, when it is an integer that fits in an `i64`.
    pub as_i64: Option<i64>,
    /// A thousand times the value, truncated toward zero, when the value is finite and not
    /// negative (seconds read as milliseconds).
    pub thousandths: Option<u64>,
}

/// A JSON value.
#[derive(Debug)]
pub enum Json {
    Null,
    Bool(bool),
    Number(JsonNumber),
    Str(String),
    Array(Vec<Json>),
    Object(Vec<(String, Json)>),
}

/// The value stored under `key` among the members of an object.
pub open spec fn member(entries: Seq<(String, Json)>, key: Seq<char>) -> Option<Json>
    decreases entries.len(),
{
    if entries.len() == 0 {
        None
    } else if entries[0].0@ == key {
        Some(entries[0].1)
    } else {
        member(entries.drop_first(), key)
    }
}

/// `value[key]` for an object; nothing for any other value.
pub open spec fn get_spec(value: Json, key: Seq<char>) -> Option<Json> {
    match value {
        Json::Object(entries) => member(entries@, key),
        _ => None,
    }
}

/// Follows `path` key by key from `value`.
pub open spec fn path_spec(value: Json, path: Seq<Seq<char>>) -> Option<Json>
    decreases path.len(),
{
    if path.len() == 0 {
        Some(value)
    } else {
        match get_spec(value, path[0]) {
            Some(v) => path_spec(v, path.drop_first()),
            None => None,
        }
    }
}

/// The string a value holds.
pub open spec fn str_spec(value: Json) -> Option<Seq<char>> {
    match value {
        Json::Str(s) => Some(s@),
        _ => None,
    }
}

/// The string at `key`.
pub open spec fn str_at(value: Json, key: Seq<char>) -> Option<Seq<char>> {
    match get_spec(value, key) {
        Some(v) => str_spec(v),
        None => None,
    }
}

/// The string at the end of `path`.
pub open spec fn str_at_path(value: Json, path: Seq<Seq<char>>) -> Option<Seq<char>> {
    match path_spec(value, path) {
        Some(v) => str_spec(v),
        None => None,
    }
}

/// The non-negative integer a value holds.
pub open spec fn u64_spec(value: Json) -> Option<u64> {
    match value {
        Json::Number(n) => n.as_u64,
        _ => None,
    }
}

/// The integer a value holds, when it fits in an `i64`.
pub open spec fn i64_spec(value: Json) -> Option<i64> {
    match value {
        Json::Number(n) => n.as_i64,
        _ => None,
    }
}

/// The boolean a value holds.
pub open spec fn bool_spec(value: Json) -> Option<bool> {
    match value {
        Json::Bool(b) => Some(b),
        _ => None,
    }
}

/// The items of an array.
pub open spec fn array_spec(value: Json) -> Option<Seq<Json>> {
    match value {
        Json::Array(items) => Some(items@),
        _ => None,
    }
}

impl Json {
    /// `self[key]` for an object.
    pub fn get(&self, key: &str) -> (r: Option<&Json>)
        ensures
            match r {
                Some(v) => get_spec(*self, key@) == Some(*v),
                None => get_spec(*self, key@) is None,
            },
    {
        match self {
            Json::Object(entries) => {
                let mut i: usize = 0;
                assert(entries@.skip(0) =~= entries@);
                while i < entries.len()
                    invariant
                        i <= entries@.len(),
                        member(entries@, key@) == member(entries@.skip(i as int), key@),
                        get_spec(*self, key@) == member(entries@, key@),
                    decreases entries@.len() - i,
                {
                    assert(entries@.skip(i as int).drop_first() =~= entries@.skip(i + 1));
                    assert(entries@.skip(i as int)[0] == entries@[i as int]);
                    if crate::lyrics::same_str(entries[i].0.as_str(), key) {
                        assert(member(entries@.skip(i as int), key@) == Some(entries@[i as int].1));
                        return Some(&entries[i].1);
                    }
                    i = i + 1;
                }
                None
            },
            _ => None,
        }
    }

    /// The string this value holds.
    pub fn as_str(&self) -> (r: Option<&str>)
        ensures
            match r {
                Some(s) => str_spec(*self) == Some(s@),
                None => str_spec(*self) is None,
            },
    {
        match self {
            Json::Str(s) => Some(s.as_str()),
            _ => None,
        }
    }

    /// The non-negative integer this value holds.
    pub fn as_u64(&self) -> (r: Option<u64>)
        ensures
            r == u64_spec(*self),
    {
        match self {
            Json::Number(n) => n.as_u64,
            _ => None,
        }
    }

    /// The integer this value holds, when it fits in an `i64`.
    pub fn as_i64(&self) -> (r: Option<i64>)
        ensures
            r == i64_spec(*self),
    {
        match self {
            Json::Number(n) => n.as_i64,
            _ => None,
        }
    }

    /// The boolean this value holds.
    pub fn as_bool(&self) -> (r: Option<bool>)
        ensures
            r == bool_spec(*self),
    {
        match self {
            Json::Bool(b) => Some(*b),
            _ => None,
        }
    }

    /// The items of an array.
    pub fn as_array(&self) -> (r: Option<&Vec<Json>>)
        ensures
            match r {
                Some(items) => array_spec(*self) == Some(items@),
                None => array_spec(*self) is None,
            },
    {
        match self {
            Json::Array(items) => Some(items),
            _ => None,
        }
    }

    /// Whether this value is `null`.
    pub fn is_null(&self) -> (r: bool)
        ensures
            r == (*self is Null),
    {
        match self {
            Json::Null => true,
            _ => false,
        }
    }

    /// Follows `path` key by key.
    pub fn at_path(&self, path: &[&str]) -> (r: Option<&Json>)
        ensures
            match r {
                Some(v) => path_spec(*self, path@.map_values(|k: &str| k@)) == Some(*v),
                None => path_spec(*self, path@.map_values(|k: &str| k@)) is None,
            },
    {
        let ghost keys = path@.map_values(|k: &str| k@);
        let mut cur: &Json = self;
        let mut i: usize = 0;
        assert(keys.skip(0) =~= keys);
        while i < path.len()
            invariant
                i <= path@.len(),
                keys == path@.map_values(|k: &str| k@),
                path_spec(*self, keys) == path_spec(*cur, keys.skip(i as int)),
            decreases path@.len() - i,
        {
            assert(keys.skip(i as int).drop_first() =~= keys.skip(i + 1));
            assert(keys.skip(i as int)[0] == path@[i as int]@);
            match cur.get(path[i]) {
                Some(next) => {
                    cur = next;
                },
                None => {
                    return None;
                },
            }
            i = i + 1;
        }
        Some(cur)
    }

    /// The string at the end of `path`.
    pub fn str_at_path(&self, path: &[&str]) -> (r: Option<&str>)
        ensures
            match r {
                Some(s) => str_at_path(*self, path@.map_values(|k: &str| k@)) == Some(s@),
                None => str_at_path(*self, path@.map_values(|k: &str| k@)) is None,
            },
    {
        match self.at_path(path) {
            Some(v) => v.as_str(),
            None => None,
        }
    }
}

/// Every value stored under `key`, wherever it appears: an object's own member first, then what
/// its members hold, in order; an array's items in order.
pub open spec fn collected(v: Json, key: Seq<char>) -> Seq<Json>
    decreases v, 0nat,
{
    match v {
        Json::Object(entries) => {
            proof {
                assert(decreases_to!(v => entries));
                assert(decreases_to!(entries => entries@));
            }
            (match member(entries@, key) {
                Some(f) => seq![f],
                None => seq![],
            }) + collected_members(entries@, key)
        },
        Json::Array(items) => {
            proof {
                assert(decreases_to!(v => items));
                assert(decreases_to!(items => items@));
            }
            collected_items(items@, key)
        },
        _ => seq![],
    }
}

/// [`collected`] over the values of some members, in order.
pub open spec fn collected_members(es: Seq<(String, Json)>, key: Seq<char>) -> Seq<Json>
    decreases es, 1nat,
{
    if es.len() == 0 {
        seq![]
    } else {
        proof {
            assert(decreases_to!(es => es[0]));
            assert(decreases_to!(es[0] => es[0].1));
        }
        collected(es[0].1, key) + collected_members(es.drop_first(), key)
    }
}

/// [`collected`] over some items, in order.
pub open spec fn collected_items(items: Seq<Json>, key: Seq<char>) -> Seq<Json>
    decreases items, 1nat,
{
    if items.len() == 0 {
        seq![]
    } else {
        collected(items[0], key) + collected_items(items.drop_first(), key)
    }
}

/// The values a list of references points to.
pub open spec fn deref_all(rs: Seq<&Json>) -> Seq<Json> {
    rs.map_values(|r: &Json| *r)
}

/// Appends every value stored under `key`, wherever it appears in `value`. Payloads nest their
/// data under layout wrappers that change between releases, so matching on the key rather than
/// on a fixed path keeps parsing working across them.
pub fn collect_renderers<'a>(value: &'a Json, key: &str, out: &mut Vec<&'a Json>)
    ensures
        deref_all(final(out)@) == deref_all(old(out)@) + collected(*value, key@),
    decreases value,
{
    let ghost start = deref_all(out@);
    match value {
        Json::Object(map) => {
            let found = value.get(key);
            let ghost head: Seq<Json> = match member(map@, key@) {
                Some(f) => seq![f],
                None => seq![],
            };
            match found {
                Some(f) => {
                    out.push(f);
                    assert(deref_all(out@) =~= start + head);
                },
                None => {
                    assert(start + head =~= start);
                },
            }
            let mut i: usize = 0;
            assert(map@.skip(0) =~= map@);
            while i < map.len()
                invariant
                    i <= map@.len(),
                    *value == Json::Object(*map),
                    deref_all(out@) + collected_members(map@.skip(i as int), key@) == start + head
                        + collected_members(map@, key@),
                decreases map@.len() - i,
            {
                let ghost rest = map@.skip(i as int);
                assert(rest.drop_first() =~= map@.skip(i + 1));
                assert(rest[0] == map@[i as int]);
                let ghost before = deref_all(out@);
                proof {
                    assert(decreases_to!(*value => (*value)->Object_0));
                    assert(decreases_to!(*map => map@));
                    assert(decreases_to!(map@ => map@[i as int]));
                    assert(decreases_to!(map@[i as int] => map@[i as int].1));
                }
                collect_renderers(&map[i].1, key, out);
                assert(deref_all(out@) + collected_members(map@.skip(i + 1), key@) =~= before + (
                collected(map@[i as int].1, key@) + collected_members(map@.skip(i + 1), key@)));
                i = i + 1;
            }
            assert(map@.skip(map@.len() as int) =~= Seq::<(String, Json)>::empty());
        },
        Json::Array(items) => {
            let mut i: usize = 0;
            assert(items@.skip(0) =~= items@);
            while i < items.len()
                invariant
                    i <= items@.len(),
                    *value == Json::Array(*items),
                    deref_all(out@) + collected_items(items@.skip(i as int), key@) == start
                        + collected_items(items@, key@),
                decreases items@.len() - i,
            {
                let ghost rest = items@.skip(i as int);
                assert(rest.drop_first() =~= items@.skip(i + 1));
                assert(rest[0] == items@[i as int]);
                let ghost before = deref_all(out@);
                proof {
                    assert(decreases_to!(*value => (*value)->Array_0));
                    assert(decreases_to!(*items => items@));
                    assert(decreases_to!(items@ => items@[i as int]));
                }
                collect_renderers(&items[i], key, out);
                assert(deref_all(out@) + collected_items(items@.skip(i + 1), key@) =~= before + (
                collected(items@[i as int], key@) + collected_items(items@.skip(i + 1), key@)));
                i = i + 1;
            }
            assert(items@.skip(items@.len() as int) =~= Seq::<Json>::empty());
        },
        _ => {
            assert(deref_all(out@) =~= start + collected(*value, key@));
        },
    }
}

/// Every value stored under `key`, wherever it appears in `value`.
pub fn renderers<'a>(value: &'a Json, key: &str) -> (r: Vec<&'a Json>)
    ensures
        deref_all(r@) == collected(*value, key@),
{
    let mut out: Vec<&'a Json> = Vec::new();
    assert(deref_all(out@) =~= Seq::<Json>::empty());
    collect_renderers(value, key, &mut out);
    assert(Seq::<Json>::empty() + collected(*value, key@) =~= collected(*value, key@));
    out
}

/// The string stored under `key`, as characters.
pub fn str_field(value: &Json, key: &str) -> (r: Option<Vec<char>>)
    ensures
        match r {
            Some(v) => str_at(*value, key@) == Some(v@),
            None => str_at(*value, key@) is None,
        },
{
    match value.get(key) {
        Some(v) => match v.as_str() {
            Some(s) => Some(crate::text::chars_of(s)),
            None => None,
        },
        None => None,
    }
}

} // verus!
