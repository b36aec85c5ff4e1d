//! Header fields: those asked for with a request, and those of a response.

use crate::json::{entries_view, lemma_no_entries, put, Json, JsonView};
use crate::text::ascii_lower;
use vstd::prelude::*;

verus! {

/// A JSON value of `serde_json`, carried through as it came.
#[verifier::external_type_specification]
#[verifier::external_body]
pub struct ExValue(serde_json::Value);

/// The object map of `serde_json`.
#[verifier::external_type_specification]
#[verifier::external_body]
#[verifier::reject_recursive_types(K)]
#[verifier::reject_recursive_types(V)]
pub struct ExMap<K, V>(serde_json::Map<K, V>);

/// The compact JSON text of a value, as its `to_string` gives it.
pub uninterp spec fn value_text(value: serde_json::Value) -> Seq<char>;

/// Wraps `to_string` of `serde_json::Value`: the value as compact JSON text, which
/// depends on the value alone.
#[verifier::external_body]
fn render(value: &serde_json::Value) -> (text: String)
    ensures
        text@ == value_text(*value),
{
    value.to_string()
}

/// The value that a request asks a header to have.
#[derive(Debug)]
pub enum HeaderValue {
    /// A string.
    Text(String),
    /// Anything else.
    Other(serde_json::Value),
}

impl HeaderValue {
    /// The text that the header gets.
    pub open spec fn text(self) -> Seq<char> {
        match self {
            HeaderValue::Text(s) => s@,
            HeaderValue::Other(value) => value_text(value),
        }
    }

    /// The text that the header gets: a string as it is, any other value as JSON.
    pub fn to_text(&self) -> (text: String)
        ensures
            text@ == self.text(),
    {
        match self {
            HeaderValue::Text(s) => s.clone(),
            HeaderValue::Other(value) => render(value),
        }
    }
}

/// Whether a character may stand in a header name.
pub open spec fn is_name_char(c: char) -> bool {
    ||| 'a' <= c <= 'z'
    ||| 'A' <= c <= 'Z'
    ||| '0' <= c <= '9'
    ||| c == '!' || c == '#' || c == '$' || c == '%' || c == '&' || c == '\'' || c == '*'
    ||| c == '+' || c == '-' || c == '.' || c == '^' || c == '_' || c == '`' || c == '|'
    ||| c == '~'
}

/// Whether a text is a header name: not empty, of at most 65535 characters, each of
/// which may stand in one.
pub open spec fn is_header_name(name: Seq<char>) -> bool {
    &&& 0 < name.len() <= 65535
    &&& forall|i: int| 0 <= i < name.len() ==> is_name_char(#[trigger] name[i])
}

/// Wraps `HeaderName::try_from` of `waki::header` with `HeaderName::as_str` on what
/// it gives: `None` exactly where the text is no header name, else the name in
/// lower case.
#[verifier::external_body]
fn header_name(name: &str) -> (normal: Option<String>)
    ensures
        normal is Some <==> is_header_name(name@),
        normal matches Some(s) ==> s@ == ascii_lower(name@),
{
    match waki::header::HeaderName::try_from(name) {
        Ok(parsed) => Some(parsed.as_str().to_string()),
        Err(_) => None,
    }
}

/// The headers that a request asks for: names as given, and texts.
pub open spec fn asked(headers: Seq<(String, HeaderValue)>) -> Seq<(Seq<char>, Seq<char>)> {
    headers.map_values(|header: (String, HeaderValue)| (header.0@, header.1.text()))
}

/// The names and texts of some headers.
pub open spec fn lines(headers: Seq<(String, String)>) -> Seq<(Seq<char>, Seq<char>)> {
    headers.map_values(|header: (String, String)| (header.0@, header.1@))
}

/// One header as it is set, with its name in lower case; `None` where what it is
/// asked for under is no header name.
pub open spec fn settable(header: (Seq<char>, Seq<char>)) -> Option<(Seq<char>, Seq<char>)> {
    if is_header_name(header.0) {
        Some((ascii_lower(header.0), header.1))
    } else {
        None
    }
}

/// The headers to set, in order, for those that are asked for.
pub open spec fn to_set(headers: Seq<(Seq<char>, Seq<char>)>) -> Seq<(Seq<char>, Seq<char>)> {
    headers.filter_map(|header: (Seq<char>, Seq<char>)| settable(header))
}

/// Works out the headers to set: those asked for, in order, without the ones whose
/// name is no header name.
pub fn request_headers(headers: &Vec<(String, HeaderValue)>) -> (set: Vec<(String, String)>)
    ensures
        lines(set@) == to_set(asked(headers@)),
{
    let ghost all = asked(headers@);
    let ghost pick = |header: (Seq<char>, Seq<char>)| settable(header);
    let mut set: Vec<(String, String)> = Vec::new();
    let mut i: usize = 0;
    assert(all.take(0) =~= Seq::empty());
    assert(lines(set@) =~= all.take(0).filter_map(pick));
    while i < headers.len()
        invariant
            i <= headers@.len(),
            all == asked(headers@),
            pick == (|header: (Seq<char>, Seq<char>)| settable(header)),
            lines(set@) == all.take(i as int).filter_map(pick),
        decreases headers@.len() - i,
    {
        let ghost before = set@;
        proof {
            all.lemma_filter_map_take_succ(pick, i as int);
        }
        if let Some(name) = header_name(headers[i].0.as_str()) {
            let text: String = headers[i].1.to_text();
            set.push((name, text));
            assert(lines(set@) =~= lines(before).push((name@, text@)));
        }
        assert(lines(set@) =~= all.take(i + 1).filter_map(pick));
        i += 1;
    }
    assert(all.take(i as int) =~= all);
    set
}

/// Whether a byte of a header's value is a visible ASCII character, a space or a
/// tab.
pub open spec fn is_visible(b: u8) -> bool {
    32 <= b < 127 || b == 9
}

/// The text of a header's value: empty unless all of it is visible.
pub open spec fn field_text(value: Seq<u8>) -> Seq<char> {
    if forall|i: int| 0 <= i < value.len() ==> is_visible(#[trigger] value[i]) {
        value.map_values(|b: u8| b as char)
    } else {
        Seq::empty()
    }
}

/// Reads the text of a header's value; empty unless all of it is visible.
pub fn header_text(value: &Vec<u8>) -> (text: String)
    ensures
        text@ == field_text(value@),
{
    let mut text: String = String::new();
    let mut i: usize = 0;
    while i < value.len()
        invariant
            i <= value@.len(),
            forall|j: int| 0 <= j < i ==> is_visible(#[trigger] value@[j]),
            text@ =~= value@.take(i as int).map_values(|b: u8| b as char),
        decreases value@.len() - i,
    {
        let b: u8 = value[i];
        if !((32 <= b && b < 127) || b == 9) {
            assert(!is_visible(value@[i as int]));
            return String::new();
        }
        text.push(b as char);
        i += 1;
    }
    assert(value@.take(i as int) =~= value@);
    text
}

/// The fields of a response: names and bytes.
pub open spec fn fields(headers: Seq<(String, Vec<u8>)>) -> Seq<(Seq<char>, Seq<u8>)> {
    headers.map_values(|header: (String, Vec<u8>)| (header.0@, header.1@))
}

/// The texts of a response's fields by name. Of a name that occurs more than once
/// the last counts.
pub open spec fn field_map(fields: Seq<(Seq<char>, Seq<u8>)>) -> Map<Seq<char>, Seq<char>>
    decreases fields.len(),
{
    if fields.len() == 0 {
        Map::empty()
    } else {
        field_map(fields.drop_last()).insert(fields.last().0, field_text(fields.last().1))
    }
}

/// A JSON object of texts.
pub open spec fn text_object(texts: Map<Seq<char>, Seq<char>>) -> JsonView {
    JsonView::Object(texts.map_values(|text: Seq<char>| JsonView::Text(text)))
}

/// What a `serde_json` map holds, by key: the text of each string, and `None` for
/// each value that is no string.
pub uninterp spec fn map_texts(table: serde_json::Map<String, serde_json::Value>) -> Map<
    Seq<char>,
    Option<Seq<char>>,
>;

/// Wraps `serde_json::Map::new`: a map without entries.
#[verifier::external_body]
fn table_new() -> (table: serde_json::Map<String, serde_json::Value>)
    ensures
        map_texts(table) == (Map::<Seq<char>, Option<Seq<char>>>::empty()),
{
    serde_json::Map::new()
}

/// Wraps `serde_json::Map::insert` of a string: the key has the text, in place of
/// what it had before, and every other key keeps its own.
#[verifier::external_body]
fn table_insert(
    table: &mut serde_json::Map<String, serde_json::Value>,
    key: String,
    text: String,
)
    ensures
        map_texts(*final(table)) == map_texts(*old(table)).insert(key@, Some(text@)),
{
    table.insert(key, serde_json::Value::String(text));
}

/// What some rows say: keys, with the texts that are there.
pub open spec fn rows_view(rows: Seq<(String, Option<String>)>) -> Seq<
    (Seq<char>, Option<Seq<char>>),
> {
    rows.map_values(
        |row: (String, Option<String>)|
            (
                row.0@,
                match row.1 {
                    Some(text) => Some(text@),
                    None => None,
                },
            ),
    )
}

/// Some rows as a map: a later row replaces an earlier one of the same key.
pub open spec fn row_map(rows: Seq<(Seq<char>, Option<Seq<char>>)>) -> Map<
    Seq<char>,
    Option<Seq<char>>,
>
    decreases rows.len(),
{
    if rows.len() == 0 {
        Map::empty()
    } else {
        row_map(rows.drop_last()).insert(rows.last().0, rows.last().1)
    }
}

/// Wraps the iteration over a `serde_json::Map` by value: one row for each key, with
/// the key's text where its value is a string. Of the order of the rows nothing is
/// claimed.
#[verifier::external_body]
fn table_rows(table: serde_json::Map<String, serde_json::Value>) -> (rows: Vec<
    (String, Option<String>),
>)
    ensures
        row_map(rows_view(rows@)) == map_texts(table),
        rows@.len() == map_texts(table).len(),
{
    table.into_iter().map(|(key, value)| (key, value.as_str().map(str::to_string))).collect()
}

/// A text as JSON; null where there is none.
pub open spec fn text_json(text: Option<Seq<char>>) -> JsonView {
    match text {
        Some(s) => JsonView::Text(s),
        None => JsonView::Null,
    }
}

/// Builds the JSON object of a response's headers.
pub fn response_headers(headers: &Vec<(String, Vec<u8>)>) -> (json: Json)
    ensures
        json@ == text_object(field_map(fields(headers@))),
{
    let ghost all = fields(headers@);
    let mut table: serde_json::Map<String, serde_json::Value> = table_new();
    let mut i: usize = 0;
    assert(field_map(all.take(0)).map_values(|text: Seq<char>| Some(text)) =~= Map::empty());
    while i < headers.len()
        invariant
            i <= headers@.len(),
            all == fields(headers@),
            map_texts(table) == field_map(all.take(i as int)).map_values(
                |text: Seq<char>| Some(text),
            ),
        decreases headers@.len() - i,
    {
        table_insert(&mut table, headers[i].0.clone(), header_text(&headers[i].1));
        proof {
            assert(all.take(i + 1).drop_last() =~= all.take(i as int));
            assert(all.take(i + 1).last() == (headers@[i as int].0@, headers@[i as int].1@));
            assert(map_texts(table) =~= field_map(all.take(i + 1)).map_values(
                |text: Seq<char>| Some(text),
            ));
        }
        i += 1;
    }
    assert(all.take(i as int) =~= all);

    let ghost shown = |text: Option<Seq<char>>| text_json(text);
    let rows: Vec<(String, Option<String>)> = table_rows(table);
    let ghost listed = rows_view(rows@);
    let mut entries: Vec<(String, Json)> = Vec::new();
    let mut j: usize = 0;
    proof {
        lemma_no_entries();
        assert(entries_view(entries@) =~= row_map(listed.take(0)).map_values(shown));
    }
    while j < rows.len()
        invariant
            j <= rows@.len(),
            listed == rows_view(rows@),
            shown == (|text: Option<Seq<char>>| text_json(text)),
            entries_view(entries@) == row_map(listed.take(j as int)).map_values(shown),
        decreases rows@.len() - j,
    {
        let value: Json = match &rows[j].1 {
            Some(text) => Json::Text(text.clone()),
            None => Json::Null,
        };
        put(&mut entries, rows[j].0.as_str(), value);
        proof {
            assert(listed.take(j + 1).drop_last() =~= listed.take(j as int));
            assert(listed.take(j + 1).last() == listed[j as int]);
            assert(entries_view(entries@) =~= row_map(listed.take(j + 1)).map_values(shown));
        }
        j += 1;
    }
    assert(listed.take(j as int) =~= listed);
    assert(entries_view(entries@) =~= field_map(all).map_values(
        |text: Seq<char>| JsonView::Text(text),
    ));
    Json::object(entries)
}

/// Every header that is set has a header name, in lower case, and a text that was
/// asked for under that name.
pub proof fn law_set_headers_were_asked_for(
    headers: Seq<(Seq<char>, Seq<char>)>,
    line: (Seq<char>, Seq<char>),
)
    requires
        to_set(headers).contains(line),
    ensures
        exists|header: (Seq<char>, Seq<char>)| #[trigger]
            headers.contains(header) && is_header_name(header.0) && line == (
                ascii_lower(header.0),
                header.1,
            ),
{
    headers.lemma_filter_map_contains(
        |header: (Seq<char>, Seq<char>)| settable(header),
        line,
    );
}

/// One more header changes what is set only at the end: by one line where its name
/// is a header name, and not at all where it is none.
pub proof fn law_bad_header_names_are_skipped(
    headers: Seq<(Seq<char>, Seq<char>)>,
    header: (Seq<char>, Seq<char>),
)
    ensures
        is_header_name(header.0) ==> to_set(headers.push(header)) == to_set(headers).push(
            (ascii_lower(header.0), header.1),
        ),
        !is_header_name(header.0) ==> to_set(headers.push(header)) == to_set(headers),
{
    assert(headers.push(header).drop_last() =~= headers);
    if is_header_name(header.0) {
        assert(to_set(headers.push(header)) =~= to_set(headers).push(
            (ascii_lower(header.0), header.1),
        ));
    }
}

/// Of a response header that occurs again, the last one counts, and it leaves every
/// other header as it was.
pub proof fn law_last_header_counts(
    fields: Seq<(Seq<char>, Seq<u8>)>,
    name: Seq<char>,
    value: Seq<u8>,
    other: Seq<char>,
)
    ensures
        field_map(fields.push((name, value))).contains_key(name),
        field_map(fields.push((name, value)))[name] == field_text(value),
        other != name ==> (field_map(fields.push((name, value))).contains_key(other) <==> field_map(
            fields,
        ).contains_key(other)),
        other != name && field_map(fields).contains_key(other) ==> field_map(
            fields.push((name, value)),
        )[other] == field_map(fields)[other],
{
    assert(fields.push((name, value)).drop_last() =~= fields);
}

/// A header gets the string that was asked for, letter for letter, and any other value
/// as JSON text.
pub proof fn law_header_gets_the_asked_text(value: &HeaderValue, text: String)
    requires
        call_ensures(HeaderValue::to_text, (value,), text),
    ensures
        *value matches HeaderValue::Text(s) ==> text@ == s@,
        *value matches HeaderValue::Other(v) ==> text@ == value_text(v),
{
}

/// Headers are set one by one: one more at the end adds one line, with its name in lower
/// case and its own text, exactly where its name is a header name, whichever the header
/// is; and it leaves the lines before it as they were. Nothing is set where nothing is
/// asked for.
pub proof fn law_headers_are_set_one_by_one(
    headers: &Vec<(String, HeaderValue)>,
    more: &Vec<(String, HeaderValue)>,
    name: String,
    value: HeaderValue,
    text: String,
    set: Vec<(String, String)>,
    more_set: Vec<(String, String)>,
)
    requires
        call_ensures(request_headers, (headers,), set),
        call_ensures(request_headers, (more,), more_set),
        call_ensures(HeaderValue::to_text, (&value,), text),
        more@ == headers@.push((name, value)),
    ensures
        headers@.len() == 0 ==> set@.len() == 0,
        more_set@.len() == set@.len() + if is_header_name(name@) {
            1int
        } else {
            0
        },
        forall|i: int|
            0 <= i < set@.len() ==> (#[trigger] more_set@[i]).0@ == set@[i].0@ && more_set@[i].1@
                == set@[i].1@,
        is_header_name(name@) ==> more_set@[set@.len() as int].0@ == ascii_lower(name@)
            && more_set@[set@.len() as int].1@ == text@,
{
    let header = (name@, value.text());
    assert(asked(more@) =~= asked(headers@).push(header));
    law_bad_header_names_are_skipped(asked(headers@), header);
    assert(lines(set@).len() == set@.len());
    assert(lines(more_set@).len() == more_set@.len());
    assert forall|i: int| 0 <= i < set@.len() implies (#[trigger] more_set@[i]).0@ == set@[i].0@
        && more_set@[i].1@ == set@[i].1@ by {
        assert(lines(more_set@)[i] == lines(set@)[i]);
    }
    if is_header_name(name@) {
        assert(lines(more_set@)[set@.len() as int] == (ascii_lower(name@), text@));
    }
    if headers@.len() == 0 {
        assert(asked(headers@).len() == 0);
        assert(lines(set@).len() == 0);
    }
}

/// A header name is a text of 1 to 65535 characters, each a letter or digit of ASCII or
/// one of fifteen signs.
pub proof fn law_header_names_by_character(name: Seq<char>)
    ensures
        is_header_name(name) <==> 1 <= name.len() <= 65535 && (forall|i: int|
            0 <= i < name.len() ==> {
                let c = (#[trigger] name[i]) as int;
                ||| 48 <= c <= 57
                ||| 65 <= c <= 90
                ||| 97 <= c <= 122
                ||| "!#$%&'*+-.^_`|~"@.contains(name[i])
            }),
{
    let signs = "!#$%&'*+-.^_`|~"@;
    reveal_strlit("!#$%&'*+-.^_`|~");
    assert(signs.len() == 15);
    assert(signs[0] == '!' && signs[1] == '#' && signs[2] == '$' && signs[3] == '%' && signs[4]
        == '&' && signs[5] == '\'' && signs[6] == '*' && signs[7] == '+' && signs[8] == '-'
        && signs[9] == '.' && signs[10] == '^' && signs[11] == '_' && signs[12] == '`' && signs[13]
        == '|' && signs[14] == '~');
    assert forall|c: char|
        #[trigger] is_name_char(c) <==> (48 <= c as int <= 57 || 65 <= c as int <= 90 || 97
            <= c as int <= 122 || signs.contains(c)) by {
        if signs.contains(c) {
            let k = signs.index_of(c);
            assert(signs[k] == c);
            assert(k == 0 || k == 1 || k == 2 || k == 3 || k == 4 || k == 5 || k == 6 || k == 7
                || k == 8 || k == 9 || k == 10 || k == 11 || k == 12 || k == 13 || k == 14);
        }
    }
    if is_header_name(name) {
        assert forall|i: int| 0 <= i < name.len() implies ({
            let c = (#[trigger] name[i]) as int;
            ||| 48 <= c <= 57
            ||| 65 <= c <= 90
            ||| 97 <= c <= 122
            ||| signs.contains(name[i])
        }) by {
            assert(is_name_char(name[i]));
        }
    }
}

/// The text of a header's value is its bytes, character by character, where all of them
/// are visible ASCII, spaces or tabs, and empty otherwise.
pub proof fn law_header_text_is_all_or_nothing(value: &Vec<u8>, text: String)
    requires
        call_ensures(header_text, (value,), text),
    ensures
        (forall|i: int|
            0 <= i < value@.len() ==> (#[trigger] value@[i]) == 9 || 32 <= value@[i] <= 126) ==> {
            &&& text@.len() == value@.len()
            &&& forall|i: int|
                0 <= i < value@.len() ==> (#[trigger] text@[i]) as int == value@[i] as int
        },
        !(forall|i: int|
            0 <= i < value@.len() ==> (#[trigger] value@[i]) == 9 || 32 <= value@[i] <= 126)
            ==> text@.len() == 0,
{
    if forall|i: int|
        0 <= i < value@.len() ==> (#[trigger] value@[i]) == 9 || 32 <= value@[i] <= 126 {
        assert forall|i: int| 0 <= i < value@.len() implies is_visible(#[trigger] value@[i]) by {}
    } else {
        let i = choose|i: int|
            0 <= i < value@.len() && !((#[trigger] value@[i]) == 9 || 32 <= value@[i] <= 126);
        assert(!is_visible(value@[i]));
    }
}

/// The headers of a response are told one by one: one more is told under its name, with
/// its own text, in place of any before it, and all others stay as they are. A response
/// without headers tells none.
pub proof fn law_response_headers_are_told_one_by_one(
    headers: &Vec<(String, Vec<u8>)>,
    more: &Vec<(String, Vec<u8>)>,
    name: String,
    value: Vec<u8>,
    text: String,
    json: Json,
    more_json: Json,
)
    requires
        call_ensures(response_headers, (headers,), json),
        call_ensures(response_headers, (more,), more_json),
        call_ensures(header_text, (&value,), text),
        more@ == headers@.push((name, value)),
    ensures
        headers@.len() == 0 ==> json@ == JsonView::Object(Map::empty()),
        json@ matches JsonView::Object(m) && more_json@ == JsonView::Object(
            m.insert(name@, JsonView::Text(text@)),
        ),
{
    let before = field_map(fields(headers@));
    let shown = |text: Seq<char>| JsonView::Text(text);
    assert(fields(more@) =~= fields(headers@).push((name@, value@)));
    assert(fields(more@).drop_last() =~= fields(headers@));
    assert(field_map(fields(more@)) == before.insert(name@, text@));
    assert(before.insert(name@, text@).map_values(shown) =~= before.map_values(shown).insert(
        name@,
        JsonView::Text(text@),
    ));
    if headers@.len() == 0 {
        assert(before.map_values(shown) =~= Map::empty());
    }
}

} // verus!
