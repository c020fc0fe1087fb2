//! The persisted user state (`state.json`): how its text is read, which
//! fields the client takes from it, and how the episode filter keywords are
//! written to and read back from it.

use vstd::prelude::*;

use crate::library::KeywordMap;
use crate::text::{
    chars_of, decimal, find_char, first_index_of, is_digit, lemma_decimal, parse_u32,
    parse_u32_chars, push_decimal, slice_chars, string_of, trim, trim_str,
};

verus! {

// ───────────────────────── JSON values ─────────────────────────

/// A JSON value, as the state file holds it (numbers kept as their text).
#[derive(Debug)]
pub enum JsonValue {
    Null,
    Bool(bool),
    Number(String),
    Str(String),
    Array(Vec<JsonValue>),
    Object(Vec<(String, JsonValue)>),
}

/// The text of a JSON string value.
pub open spec fn json_str(v: JsonValue) -> Option<Seq<char>> {
    match v {
        JsonValue::Str(s) => Some(s@),
        _ => None,
    }
}

/// The entries of an object as (key, string value) pairs; a value that is not
/// a string reads `None`.
pub open spec fn str_entries(e: Seq<(String, JsonValue)>) -> Seq<(Seq<char>, Option<Seq<char>>)> {
    e.map_values(|x: (String, JsonValue)| (x.0@, json_str(x.1)))
}

// ───────────────────────── the state file ─────────────────────────

/// What reading the state file gives.
#[derive(Debug)]
pub enum StateRead {
    /// The fields of the state object (none for a missing or blank file).
    Fields(Vec<(String, JsonValue)>),
    /// The file is not a JSON object: it is to be backed up, and nothing is
    /// to be written over it.
    Damaged,
}

/// Reads the state file from its text and what the JSON parser made of it
/// (`None` when the text is not JSON): a blank text is an empty state, a JSON
/// object gives its fields, anything else is damaged.
pub fn read_state_text(text: &str, parsed: Option<JsonValue>) -> (r: StateRead)
    ensures
        trim(text@).len() == 0 ==> (r matches StateRead::Fields(f) && f@.len() == 0),
        trim(text@).len() != 0 ==> r == match parsed {
            Some(JsonValue::Object(e)) => StateRead::Fields(e),
            _ => StateRead::Damaged,
        },
{
    let t = trim_str(text);
    if t.as_str().is_empty() {
        return StateRead::Fields(Vec::new());
    }
    match parsed {
        Some(JsonValue::Object(e)) => StateRead::Fields(e),
        _ => StateRead::Damaged,
    }
}

/// The value of the first field named `key`.
pub open spec fn field_of(fields: Seq<(String, JsonValue)>, key: Seq<char>) -> Option<JsonValue>
    decreases fields.len(),
{
    if fields.len() == 0 {
        None
    } else if fields[0].0@ == key {
        Some(fields[0].1)
    } else {
        field_of(fields.drop_first(), key)
    }
}

/// The value of a field of the state; nothing when the state is damaged.
pub open spec fn state_field(state: StateRead, key: Seq<char>) -> Option<JsonValue> {
    match state {
        StateRead::Fields(f) => field_of(f@, key),
        StateRead::Damaged => None,
    }
}

proof fn lemma_field_of_index(fields: Seq<(String, JsonValue)>, key: Seq<char>, i: int)
    requires
        0 <= i <= fields.len(),
        forall|k: int| 0 <= k < i ==> #[trigger] fields[k].0@ != key,
    ensures
        field_of(fields, key) == field_of(fields.skip(i), key),
    decreases i,
{
    if i > 0 {
        assert(fields.skip(1) =~= fields.drop_first());
        lemma_field_of_index(fields.drop_first(), key, i - 1);
        assert(fields.drop_first().skip(i - 1) =~= fields.skip(i));
    } else {
        assert(fields.skip(0) =~= fields);
    }
}

/// The field named `key`, if any.
pub fn get_field<'a>(fields: &'a Vec<(String, JsonValue)>, key: &str) -> (r: Option<&'a JsonValue>)
    ensures
        match r {
            Some(v) => field_of(fields@, key@) == Some(*v),
            None => field_of(fields@, key@) is None,
        },
{
    let k = key.to_owned();
    let mut i: usize = 0;
    while i < fields.len()
        invariant
            i <= fields.len(),
            k@ == key@,
            forall|j: int| 0 <= j < i ==> #[trigger] fields@[j].0@ != key@,
        decreases fields.len() - i,
    {
        if fields[i].0 == k {
            proof {
                lemma_field_of_index(fields@, key@, i as int);
                assert(fields@.skip(i as int)[0] == fields@[i as int]);
            }
            return Some(&fields[i].1);
        }
        i = i + 1;
    }
    proof {
        lemma_field_of_index(fields@, key@, i as int);
    }
    None
}

/// Sets the field `key` to `value`: in place when the state has it, else as a
/// new last field.
pub fn set_field(fields: &mut Vec<(String, JsonValue)>, key: &str, value: JsonValue)
    ensures
        field_of(final(fields)@, key@) == Some(value),
        forall|k: Seq<char>| k != key@ ==> field_of(final(fields)@, k) == field_of(old(fields)@, k),
{
    let k = key.to_owned();
    let mut i: usize = 0;
    while i < fields.len()
        invariant
            i <= fields.len(),
            k@ == key@,
            fields@ == old(fields)@,
            forall|j: int| 0 <= j < i ==> #[trigger] fields@[j].0@ != key@,
        decreases fields.len() - i,
    {
        if fields[i].0 == k {
            let ghost before = fields@;
            let ghost e = (k, value);
            fields.set(i, (k, value));
            proof {
                lemma_field_set(before, i as int, e);
                assert(fields@ == before.update(i as int, e));
            }
            return;
        }
        i = i + 1;
    }
    let ghost before = fields@;
    let ghost e = (k, value);
    fields.push((k, value));
    proof {
        lemma_field_push(before, e);
        assert(fields@ == before.push(e));
    }
}

proof fn lemma_field_set(fields: Seq<(String, JsonValue)>, i: int, e: (String, JsonValue))
    requires
        0 <= i < fields.len(),
        fields[i].0@ == e.0@,
        forall|j: int| 0 <= j < i ==> #[trigger] fields[j].0@ != e.0@,
    ensures
        field_of(fields.update(i, e), e.0@) == Some(e.1),
        forall|k: Seq<char>| k != e.0@ ==> field_of(fields.update(i, e), k) == field_of(fields, k),
    decreases i,
{
    let key = e.0@;
    let after = fields.update(i, e);
    if i == 0 {
        assert(after.drop_first() =~= fields.drop_first());
        assert forall|k: Seq<char>| k != key implies field_of(after, k) == field_of(fields, k) by {
            assert(after[0].0@ == key);
        }
    } else {
        assert(fields[0].0@ != key);
        lemma_field_set(fields.drop_first(), i - 1, e);
        assert(after.drop_first() =~= fields.drop_first().update(i - 1, e));
        assert forall|k: Seq<char>| k != key implies field_of(after, k) == field_of(fields, k) by {
            assert(after[0] == fields[0]);
            assert(field_of(fields.drop_first().update(i - 1, e), k) == field_of(fields.drop_first(), k));
        }
    }
}

proof fn lemma_field_push(fields: Seq<(String, JsonValue)>, e: (String, JsonValue))
    requires
        forall|j: int| 0 <= j < fields.len() ==> #[trigger] fields[j].0@ != e.0@,
    ensures
        field_of(fields.push(e), e.0@) == Some(e.1),
        forall|k: Seq<char>| k != e.0@ ==> field_of(fields.push(e), k) == field_of(fields, k),
    decreases fields.len(),
{
    let key = e.0@;
    let after = fields.push(e);
    if fields.len() > 0 {
        assert(fields[0].0@ != key);
        lemma_field_push(fields.drop_first(), e);
        assert(after.drop_first() =~= fields.drop_first().push(e));
        assert forall|k: Seq<char>| k != key implies field_of(after, k) == field_of(fields, k) by {
            assert(after[0] == fields[0]);
            assert(field_of(fields.drop_first().push(e), k) == field_of(fields.drop_first(), k));
        }
    } else {
        assert(after.drop_first() =~= Seq::<(String, JsonValue)>::empty());
        assert forall|k: Seq<char>| k != key implies field_of(after, k) == field_of(fields, k) by {
            assert(after[0].0@ == key);
            assert(field_of(after.drop_first(), k) is None);
        }
    }
}

// ───────────────────────── fields the client reads ─────────────────────────

/// The text of a field that holds a string.
pub open spec fn field_str(state: StateRead, key: Seq<char>) -> Option<Seq<char>> {
    match state_field(state, key) {
        Some(v) => json_str(v),
        None => None,
    }
}

/// The text of a string field, if the state has one.
fn read_str_field(state: &StateRead, key: &str) -> (r: Option<String>)
    ensures
        r.deep_view() == field_str(*state, key@),
{
    match state {
        StateRead::Fields(f) => match get_field(f, key) {
            Some(JsonValue::Str(s)) => Some(s.clone()),
            _ => None,
        },
        StateRead::Damaged => None,
    }
}

/// The saved theme mode (`light` / `dark`), if any.
pub fn load_theme_mode(state: &StateRead) -> (r: Option<String>)
    ensures
        r.deep_view() == field_str(*state, "theme"@),
{
    read_str_field(state, "theme")
}

/// The download directory: the saved one when it is a non-empty string, else
/// `default_dir`.
pub open spec fn spec_download_dir(state: StateRead, default_dir: Seq<char>) -> Seq<char> {
    match field_str(state, "download_dir"@) {
        Some(d) => if d.len() > 0 {
            d
        } else {
            default_dir
        },
        None => default_dir,
    }
}

/// The download directory (see [`spec_download_dir`]).
pub fn load_download_dir(state: &StateRead, default_dir: String) -> (r: String)
    ensures
        r@ == spec_download_dir(*state, default_dir@),
{
    match read_str_field(state, "download_dir") {
        Some(d) => if d.as_str().is_empty() {
            default_dir
        } else {
            d
        },
        None => default_dir,
    }
}

/// Writes the download folder into the state's fields, under `download_dir`.
pub fn save_download_dir(fields: &mut Vec<(String, JsonValue)>, dir: &str)
    ensures
        field_of(final(fields)@, "download_dir"@) matches Some(JsonValue::Str(s)) && s@ == dir@,
        forall|k: Seq<char>| k != "download_dir"@ ==> field_of(final(fields)@, k) == field_of(old(fields)@, k),
{
    set_field(fields, "download_dir", JsonValue::Str(dir.to_owned()));
}

// ───────────────────────── filter keywords ─────────────────────────

/// The JSON key of a subscription's keyword: `"{bangumi_id}:{subgroup_id}"`.
pub open spec fn spec_keyword_key(bangumi_id: u32, subgroup_id: u32) -> Seq<char> {
    decimal(bangumi_id as nat).push(':') + decimal(subgroup_id as nat)
}

/// The JSON key of a subscription's keyword.
pub fn keyword_key(bangumi_id: u32, subgroup_id: u32) -> (r: String)
    ensures
        r@ == spec_keyword_key(bangumi_id, subgroup_id),
{
    let mut out: Vec<char> = Vec::new();
    push_decimal(&mut out, bangumi_id as u64);
    out.push(':');
    push_decimal(&mut out, subgroup_id as u64);
    let r = string_of(&out);
    assert(r@ =~= spec_keyword_key(bangumi_id, subgroup_id));
    r
}

/// What one entry of the keywords object gives: its key split at the first
/// `:` into two `u32`s, and its value when that is a non-empty string.
pub open spec fn keyword_entry(key: Seq<char>, value: Option<Seq<char>>) -> Option<((u32, u32), Seq<char>)> {
    match first_index_of(key, ':') {
        Some(i) => match (parse_u32(key.subrange(0, i)), parse_u32(key.subrange(i + 1, key.len() as int)), value) {
            (Some(b), Some(s), Some(w)) => if w.len() > 0 {
                Some(((b, s), w))
            } else {
                None
            },
            _ => None,
        },
        None => None,
    }
}

/// The keywords of a list of entries; of two entries for one pair, the later
/// one stands.
pub open spec fn spec_parse_keywords(es: Seq<(Seq<char>, Option<Seq<char>>)>) -> Map<(u32, u32), Seq<char>>
    decreases es.len(),
{
    if es.len() == 0 {
        Map::empty()
    } else {
        let m = spec_parse_keywords(es.drop_last());
        match keyword_entry(es.last().0, es.last().1) {
            Some((k, w)) => m.insert(k, w),
            None => m,
        }
    }
}

/// The keywords that a JSON value holds: none unless it is an object.
pub open spec fn spec_keywords_of(v: Option<JsonValue>) -> Map<(u32, u32), Seq<char>> {
    match v {
        Some(JsonValue::Object(e)) => spec_parse_keywords(str_entries(e@)),
        _ => Map::empty(),
    }
}

fn parse_keyword_entry(key: &String, value: &JsonValue) -> (r: Option<(u32, u32, String)>)
    ensures
        match r {
            Some((b, s, w)) => keyword_entry(key@, json_str(*value)) == Some(((b, s), w@)),
            None => keyword_entry(key@, json_str(*value)) is None,
        },
{
    let w = match value {
        JsonValue::Str(w) => w,
        _ => return None,
    };
    let cs = chars_of(key.as_str());
    let i = match find_char(&cs, ':') {
        Some(i) => i,
        None => return None,
    };
    let b = parse_u32_chars(&slice_chars(&cs, 0, i));
    let s = parse_u32_chars(&slice_chars(&cs, i + 1, cs.len()));
    match (b, s) {
        (Some(b), Some(s)) => if w.as_str().is_empty() {
            None
        } else {
            Some((b, s, w.clone()))
        },
        _ => None,
    }
}

/// The filter keywords held by a JSON value: each entry whose key is
/// `"{bangumi_id}:{subgroup_id}"` and whose value is a non-empty string.
pub fn parse_subgroup_keywords(value: Option<&JsonValue>) -> (r: KeywordMap)
    ensures
        r.wf(),
        r.map() == spec_keywords_of(
            match value {
                Some(v) => Some(*v),
                None => None,
            },
        ),
{
    let mut r = KeywordMap::new();
    let e = match value {
        Some(JsonValue::Object(e)) => e,
        _ => return r,
    };
    let ghost es = str_entries(e@);
    let mut i: usize = 0;
    assert(es.take(0) =~= Seq::<(Seq<char>, Option<Seq<char>>)>::empty());
    while i < e.len()
        invariant
            i <= e.len(),
            es == str_entries(e@),
            r.wf(),
            r.map() == spec_parse_keywords(es.take(i as int)),
        decreases e.len() - i,
    {
        assert(es.take(i + 1).drop_last() =~= es.take(i as int));
        assert(es.take(i + 1).last() == (e@[i as int].0@, json_str(e@[i as int].1)));
        match parse_keyword_entry(&e[i].0, &e[i].1) {
            Some((b, s, w)) => {
                r.insert(b, s, w);
            },
            None => {},
        }
        i = i + 1;
    }
    assert(es.take(e.len() as int) =~= es);
    r
}

/// The filter keywords saved in the state (none when the state is damaged).
pub fn load_subgroup_keywords(state: &StateRead) -> (r: KeywordMap)
    ensures
        r.wf(),
        r.map() == spec_keywords_of(state_field(*state, "subgroup_keywords"@)),
{
    match state {
        StateRead::Fields(f) => parse_subgroup_keywords(get_field(f, "subgroup_keywords")),
        StateRead::Damaged => parse_subgroup_keywords(None),
    }
}

/// The (key, value) pairs under which keywords are saved, in the given order.
pub open spec fn spec_keyword_entries(
    order: Seq<(u32, u32)>,
    m: Map<(u32, u32), Seq<char>>,
) -> Seq<(Seq<char>, Option<Seq<char>>)> {
    order.map_values(|k: (u32, u32)| (spec_keyword_key(k.0, k.1), Some(m[k])))
}

/// The keywords as the JSON object that is saved: one string entry per
/// subscription, keyed by [`keyword_key`].
pub fn subgroup_keywords_json(m: &KeywordMap) -> (r: JsonValue)
    requires
        m.wf(),
    ensures
        r matches JsonValue::Object(e) && str_entries(e@) == spec_keyword_entries(m.order(), m.map()),
{
    let entries = m.entries();
    let ghost want = spec_keyword_entries(m.order(), m.map());
    let mut out: Vec<(String, JsonValue)> = Vec::new();
    let mut i: usize = 0;
    while i < entries.len()
        invariant
            i <= entries.len(),
            entries@.map_values(|e: ((u32, u32), String)| e.0) == m.order(),
            forall|j: int| 0 <= j < entries@.len() ==> m.map().dom().contains(#[trigger] entries@[j].0) && m.map()[entries@[j].0] == entries@[j].1@,
            want == spec_keyword_entries(m.order(), m.map()),
            want.len() == entries@.len(),
            str_entries(out@) == want.take(i as int),
        decreases entries.len() - i,
    {
        let (k, w) = &entries[i];
        let key = keyword_key(k.0, k.1);
        let ghost before = out@;
        out.push((key, JsonValue::Str(w.clone())));
        proof {
            assert(m.order()[i as int] == entries@[i as int].0);
            assert(str_entries(out@) =~= str_entries(before).push(want[i as int]));
            assert(want.take(i + 1) =~= want.take(i as int).push(want[i as int]));
        }
        i = i + 1;
    }
    assert(want.take(entries.len() as int) =~= want);
    JsonValue::Object(out)
}

/// Writes the keywords into the state's fields, under `subgroup_keywords`.
pub fn save_subgroup_keywords(fields: &mut Vec<(String, JsonValue)>, m: &KeywordMap)
    requires
        m.wf(),
    ensures
        field_of(final(fields)@, "subgroup_keywords"@) matches Some(JsonValue::Object(e))
            && str_entries(e@) == spec_keyword_entries(m.order(), m.map()),
        forall|k: Seq<char>| k != "subgroup_keywords"@ ==> field_of(final(fields)@, k) == field_of(old(fields)@, k),
{
    let v = subgroup_keywords_json(m);
    set_field(fields, "subgroup_keywords", v);
}

// ───────────────────────── laws ─────────────────────────

/// A decimal spelling reads back as its number.
proof fn lemma_parse_decimal(n: u32)
    ensures
        parse_u32(decimal(n as nat)) == Some(n),
        forall|i: int| 0 <= i < decimal(n as nat).len() ==> #[trigger] decimal(n as nat)[i] != ':',
{
    lemma_decimal(n as nat);
    let d = decimal(n as nat);
    assert(is_digit(d[0]));
    assert forall|i: int| 0 <= i < d.len() implies #[trigger] d[i] != ':' by {
        assert(is_digit(d[i]));
    }
}

proof fn lemma_keyword_key_entry(b: u32, s: u32, w: Seq<char>)
    requires
        w.len() > 0,
    ensures
        keyword_entry(spec_keyword_key(b, s), Some(w)) == Some(((b, s), w)),
{
    lemma_parse_decimal(b);
    lemma_parse_decimal(s);
    let db = decimal(b as nat);
    let ds = decimal(s as nat);
    let key = spec_keyword_key(b, s);
    let n = db.len() as int;
    assert(key[n] == ':');
    assert forall|k: int| 0 <= k < n implies key[k] != ':' by {
        assert(key[k] == db[k]);
    }
    assert(first_index_of(key, ':') == Some(n)) by {
        let i = choose|i: int| 0 <= i < key.len() && key[i] == ':' && forall|k: int| 0 <= k < i ==> key[k] != ':';
        if i < n {
            assert(key[i] == db[i]);
        }
    }
    assert(key.subrange(0, n) =~= db);
    assert(key.subrange(n + 1, key.len() as int) =~= ds);
}

proof fn lemma_parse_keywords_step(es: Seq<(Seq<char>, Option<Seq<char>>)>, k: (u32, u32), w: Seq<char>)
    requires
        es.len() > 0,
        keyword_entry(es.last().0, es.last().1) == Some((k, w)),
    ensures
        spec_parse_keywords(es) == spec_parse_keywords(es.drop_last()).insert(k, w),
{
}

proof fn lemma_parse_keyword_entries(order: Seq<(u32, u32)>, m: Map<(u32, u32), Seq<char>>)
    requires
        forall|i: int| 0 <= i < order.len() ==> m.dom().contains(#[trigger] order[i]),
    ensures
        spec_parse_keywords(spec_keyword_entries(order, m)) == Map::new(
            |k: (u32, u32)| order.contains(k) && m[k].len() > 0,
            |k: (u32, u32)| m[k],
        ),
    decreases order.len(),
{
    let es = spec_keyword_entries(order, m);
    let want = Map::new(|k: (u32, u32)| order.contains(k) && m[k].len() > 0, |k: (u32, u32)| m[k]);
    if order.len() == 0 {
        assert(want =~= Map::<(u32, u32), Seq<char>>::empty());
    } else {
        let o = order.drop_last();
        let last = order.last();
        assert(es.drop_last() =~= spec_keyword_entries(o, m));
        lemma_parse_keyword_entries(o, m);
        let prev = Map::new(|k: (u32, u32)| o.contains(k) && m[k].len() > 0, |k: (u32, u32)| m[k]);
        assert(m.dom().contains(order[order.len() - 1]));
        assert(es.last() == (spec_keyword_key(last.0, last.1), Some(m[last])));
        assert forall|k: (u32, u32)| #[trigger] order.contains(k) <==> (o.contains(k) || k == last) by {
            if order.contains(k) && k != last {
                let i = choose|i: int| 0 <= i < order.len() && order[i] == k;
                assert(o[i] == k);
            }
            if o.contains(k) {
                let i = choose|i: int| 0 <= i < o.len() && o[i] == k;
                assert(order[i] == k);
            }
            if k == last {
                assert(order[order.len() - 1] == k);
            }
        }
        if m[last].len() > 0 {
            lemma_keyword_key_entry(last.0, last.1, m[last]);
            lemma_parse_keywords_step(es, last, m[last]);
            assert(prev.insert(last, m[last]) =~= want);
        } else {
            assert(keyword_entry(es.last().0, es.last().1) is None);
            assert(spec_parse_keywords(es) == spec_parse_keywords(es.drop_last()));
            assert(prev =~= want);
        }
    }
}

/// Saving the filter keywords and reading them back gives the same keywords,
/// but for the empty ones, which do not come back (an empty keyword filters
/// nothing).
pub proof fn law_keywords_round_trip(m: KeywordMap)
    requires
        m.wf(),
    ensures
        spec_parse_keywords(spec_keyword_entries(m.order(), m.map())) == Map::new(
            |k: (u32, u32)| m.map().dom().contains(k) && m.map()[k].len() > 0,
            |k: (u32, u32)| m.map()[k],
        ),
        (forall|k: (u32, u32)| #[trigger] m.map().dom().contains(k) ==> m.map()[k].len() > 0)
            ==> spec_parse_keywords(spec_keyword_entries(m.order(), m.map())) == m.map(),
{
    m.lemma_order();
    let order = m.order();
    assert forall|i: int| 0 <= i < order.len() implies m.map().dom().contains(#[trigger] order[i]) by {
        assert(order.to_set().contains(order[i]));
    }
    lemma_parse_keyword_entries(order, m.map());
    assert forall|k: (u32, u32)| order.contains(k) <==> #[trigger] m.map().dom().contains(k) by {
        assert(order.to_set().contains(k) <==> order.contains(k));
    }
    let want = Map::new(|k: (u32, u32)| m.map().dom().contains(k) && m.map()[k].len() > 0, |k: (u32, u32)| m.map()[k]);
    assert(Map::new(|k: (u32, u32)| order.contains(k) && m.map()[k].len() > 0, |k: (u32, u32)| m.map()[k]) =~= want);
    if forall|k: (u32, u32)| #[trigger] m.map().dom().contains(k) ==> m.map()[k].len() > 0 {
        assert(want =~= m.map());
    }
}

/// The download folder saved in the state is the one read back, when it is
/// not empty; an empty one reads back as the default.
pub proof fn law_download_dir_round_trip(fields: Vec<(String, JsonValue)>, dir: Seq<char>, default_dir: Seq<char>)
    requires
        field_of(fields@, "download_dir"@) matches Some(JsonValue::Str(s)) && s@ == dir,
    ensures
        spec_download_dir(StateRead::Fields(fields), default_dir) == if dir.len() > 0 {
            dir
        } else {
            default_dir
        },
{
}

} // verus!
