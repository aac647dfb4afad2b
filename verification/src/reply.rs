//! JSON answers of the portal and what the engine reads from them.
use vstd::prelude::*;
use serde_json::Value;
use crate::text::{chars_of, string_from_chars, str_eq};
use crate::address::opt_seq;
use crate::mag::{json_object_set, json_object_with, opt_str_view};
use crate::proxy::pairs_view;
use crate::stalker::{
    AuthReply, ChannelData, Channel, EpgItem, ProfileId, channels_from_data, channels_of, channel_view,
};

verus! {

/// A JSON value as serde_json reads it. An object keeps its entries in the order
/// serde_json's map walks them (by key), each key once.
#[derive(Debug)]
pub enum JsonValue {
    Null,
    Bool(bool),
    /// A number: the text serde_json writes for it, and its value where it is an integer
    /// that fits in `i64`.
    Number(String, Option<i64>),
    Str(String),
    Array(Vec<JsonValue>),
    Object(Vec<(String, JsonValue)>),
}

/// What serde_json reads from a text, as a `JsonValue`; `None` where the text is no JSON.
pub uninterp spec fn json_value_of(text: Seq<char>) -> Option<JsonValue>;

/// Calls `serde_json::from_str::<serde_json::Value>` and converts the value one for one
/// (a number by `Number::to_string` and `Number::as_i64`, the members of an array or
/// object by serializing each with `Value::to_string` and reading it again). The contract
/// names the result.
#[verifier::external_body]
fn parse_json(text: &str) -> (r: Option<JsonValue>)
    ensures
        r == json_value_of(text@),
{
    let member = |x: &Value| parse_json(&x.to_string()).unwrap_or(JsonValue::Null);
    Some(match serde_json::from_str::<Value>(text).ok()? {
        Value::Null => JsonValue::Null,
        Value::Bool(b) => JsonValue::Bool(b),
        Value::Number(n) => JsonValue::Number(n.to_string(), n.as_i64()),
        Value::String(s) => JsonValue::Str(s),
        Value::Array(a) => JsonValue::Array(a.iter().map(member).collect()),
        Value::Object(o) => JsonValue::Object(o.iter().map(|(k, x)| (k.clone(), member(x))).collect()),
    })
}

/// Why an answer of the portal cannot be read.
#[derive(Debug, Clone, Copy, PartialEq, Eq, Structural)]
pub enum ReplyError {
    /// The body is no JSON.
    NotJson,
    /// `js` is missing or of the wrong kind.
    NoJs,
    /// The expected list is missing.
    NoList,
    /// An entry lacks a text it must have, or holds a member of the wrong kind.
    MissingField,
}

// ---------------------------------------------------------------------------
// Reading values
// ---------------------------------------------------------------------------

/// The first index from `i` on whose key is `key`.
pub open spec fn find_entry(es: Seq<(String, JsonValue)>, key: Seq<char>, i: int) -> Option<int>
    decreases es.len() - i,
{
    if i < 0 || i >= es.len() {
        None
    } else if es[i].0@ == key {
        Some(i)
    } else {
        find_entry(es, key, i + 1)
    }
}

/// `v[key]` where `v` is an object with that key (serde_json's `Value::get`).
pub open spec fn field(v: JsonValue, key: Seq<char>) -> Option<JsonValue> {
    match v {
        JsonValue::Object(es) => match find_entry(es@, key, 0) {
            Some(i) => Some(es@[i].1),
            None => None,
        },
        _ => None,
    }
}

/// The member `key` of an optional value (missing where the value is).
pub open spec fn at(o: Option<JsonValue>, key: Seq<char>) -> Option<JsonValue> {
    match o {
        Some(v) => field(v, key),
        None => None,
    }
}

/// The text of a value that is a string (`Value::as_str`).
pub open spec fn text_of(o: Option<JsonValue>) -> Option<Seq<char>> {
    match o {
        Some(JsonValue::Str(s)) => Some(s@),
        _ => None,
    }
}

/// The integer of a value that is a number fitting in `i64` (`Value::as_i64`).
pub open spec fn int_of(o: Option<JsonValue>) -> Option<i64> {
    match o {
        Some(JsonValue::Number(_, n)) => n,
        _ => None,
    }
}

/// The member `key` of `v` (see `field`).
pub fn json_field<'a>(v: &'a JsonValue, key: &str) -> (r: Option<&'a JsonValue>)
    ensures
        match r {
            Some(x) => field(*v, key@) == Some(*x),
            None => field(*v, key@) is None,
        },
{
    match v {
        JsonValue::Object(es) => {
            let mut i: usize = 0;
            while i < es.len()
                invariant
                    i <= es.len(),
                    *v == JsonValue::Object(*es),
                    find_entry(es@, key@, 0) == find_entry(es@, key@, i as int),
                decreases es.len() - i,
            {
                if str_eq(es[i].0.as_str(), key) {
                    assert(find_entry(es@, key@, i as int) == Some(i as int));
                    return Some(&es[i].1);
                }
                i += 1;
            }
            None
        },
        _ => None,
    }
}

/// The member `key` of an optional value.
pub fn json_at<'a>(o: Option<&'a JsonValue>, key: &str) -> (r: Option<&'a JsonValue>)
    ensures
        match r {
            Some(x) => at(opt_value(o), key@) == Some(*x),
            None => at(opt_value(o), key@) is None,
        },
{
    match o {
        Some(v) => json_field(v, key),
        None => None,
    }
}

pub open spec fn opt_value(o: Option<&JsonValue>) -> Option<JsonValue> {
    match o {
        Some(v) => Some(*v),
        None => None,
    }
}

/// The text of an optional value that is a string.
pub fn json_text(o: Option<&JsonValue>) -> (r: Option<String>)
    ensures
        opt_seq(r) == text_of(opt_value(o)),
{
    match o {
        Some(JsonValue::Str(s)) => Some(s.clone()),
        _ => None,
    }
}

/// The integer of an optional value that is a number fitting in `i64`.
pub fn json_int(o: Option<&JsonValue>) -> (r: Option<i64>)
    ensures
        r == int_of(opt_value(o)),
{
    match o {
        Some(JsonValue::Number(_, n)) => *n,
        _ => None,
    }
}

/// Reads an answer of the portal (see `json_value_of`); `NotJson` where it is no JSON.
pub fn read_reply(text: &str) -> (r: Result<JsonValue, ReplyError>)
    ensures
        match json_value_of(text@) {
            Some(v) => r == Ok::<JsonValue, ReplyError>(v),
            None => r == Err::<JsonValue, ReplyError>(ReplyError::NotJson),
        },
{
    match parse_json(text) {
        Some(v) => Ok(v),
        None => Err(ReplyError::NotJson),
    }
}

// ---------------------------------------------------------------------------
// The handshake and signing in
// ---------------------------------------------------------------------------

/// The handshake answer's token: `js` must be an object; its `token` where it is a
/// string.
pub open spec fn handshake_token_of(v: JsonValue) -> Result<Option<Seq<char>>, ReplyError> {
    match field(v, "js"@) {
        Some(JsonValue::Object(_)) => Ok(text_of(at(field(v, "js"@), "token"@))),
        _ => Err(ReplyError::NoJs),
    }
}

pub open spec fn opt_result_view(r: Result<Option<String>, ReplyError>) -> Result<Option<Seq<char>>, ReplyError> {
    match r {
        Ok(o) => Ok(opt_seq(o)),
        Err(e) => Err(e),
    }
}

pub fn handshake_token(v: &JsonValue) -> (r: Result<Option<String>, ReplyError>)
    ensures
        opt_result_view(r) == handshake_token_of(*v),
{
    let js = json_field(v, "js");
    match js {
        Some(JsonValue::Object(_)) => Ok(json_text(json_field(js.unwrap(), "token"))),
        _ => Err(ReplyError::NoJs),
    }
}

/// What the sign-in decision reads from a `do_auth` answer (see `AuthReply`).
pub open spec fn auth_reply_of(text: Seq<char>, r: AuthReply) -> bool {
    let v = json_value_of(text);
    let js = match v {
        Some(x) => field(x, "js"@),
        None => None,
    };
    &&& r.body_empty == (text.len() == 0)
    &&& r.parsed == (v is Some)
    &&& r.as_bool == (match v {
        Some(JsonValue::Bool(b)) => Some(b),
        _ => None,
    })
    &&& r.is_object == (v matches Some(JsonValue::Object(_)))
    &&& opt_seq(r.js_token) == text_of(at(js, "token"@))
    &&& opt_seq(r.js_id) == text_of(at(js, "id"@))
    &&& r.js_has_token == (text_of(at(js, "token"@)) is Some)
    &&& opt_seq(r.token) == text_of(at(v, "token"@))
    &&& opt_seq(r.text) == text_of(at(v, "text"@))
}

/// Reads a `do_auth` answer for the sign-in decision (see `auth_reply_of`).
pub fn auth_reply(text: &str) -> (r: AuthReply)
    ensures
        auth_reply_of(text@, r),
{
    let empty = chars_of(text).len() == 0;
    let parsed = parse_json(text);
    match &parsed {
        Some(v) => {
            let js = json_field(v, "js");
            let js_token = json_text(json_at(js, "token"));
            let has = js_token.is_some();
            AuthReply {
                body_empty: empty,
                parsed: true,
                as_bool: match v {
                    JsonValue::Bool(b) => Some(*b),
                    _ => None,
                },
                is_object: match v {
                    JsonValue::Object(_) => true,
                    _ => false,
                },
                js_token,
                js_id: json_text(json_at(js, "id")),
                js_has_token: has,
                token: json_text(json_field(v, "token")),
                text: json_text(json_field(v, "text")),
            }
        },
        None => AuthReply {
            body_empty: empty,
            parsed: false,
            as_bool: None,
            is_object: false,
            js_token: None,
            js_id: None,
            js_has_token: false,
            token: None,
            text: None,
        },
    }
}

/// Whether `id` is how the profile answer's `js.id` is read: its text where it is a
/// string, a number, or anything else.
pub open spec fn is_profile_id_of(id: ProfileId, o: Option<JsonValue>) -> bool {
    match o {
        Some(JsonValue::Str(s)) => id matches ProfileId::Text(t) && t@ == s@,
        Some(JsonValue::Number(_, _)) => id is Number,
        _ => id is Other,
    }
}

/// Whether a profile answer can be read: `js.fname` is a string, `js.id` is there (of any
/// kind), and the answer's `text` is absent, null or a string.
pub open spec fn profile_reply_ok(v: JsonValue) -> bool {
    &&& text_of(at(field(v, "js"@), "fname"@)) is Some
    &&& at(field(v, "js"@), "id"@) is Some
    &&& opt_text_ok(field(v, "text"@))
}

/// Reads the profile answer: the kind of `js.id` and `js.fname` (see `profile_reply_ok`).
pub fn profile_from_reply(v: &JsonValue) -> (r: Result<(ProfileId, String), ReplyError>)
    ensures
        if profile_reply_ok(*v) {
            r matches Ok((id, fname)) && text_of(at(field(*v, "js"@), "fname"@)) == Some(fname@) && is_profile_id_of(
                id,
                at(field(*v, "js"@), "id"@),
            )
        } else {
            r == Err::<(ProfileId, String), ReplyError>(ReplyError::MissingField)
        },
{
    let js = json_field(v, "js");
    let fname = match json_text(json_at(js, "fname")) {
        Some(f) => f,
        None => return Err(ReplyError::MissingField),
    };
    if !opt_text_fits(json_field(v, "text")) {
        return Err(ReplyError::MissingField);
    }
    let id = match json_at(js, "id") {
        Some(JsonValue::Str(s)) => ProfileId::Text(s.clone()),
        Some(JsonValue::Number(_, _)) => ProfileId::Number,
        Some(_) => ProfileId::Other,
        None => return Err(ReplyError::MissingField),
    };
    Ok((id, fname))
}

// ---------------------------------------------------------------------------
// Lists
// ---------------------------------------------------------------------------

/// Whether a genre entry has a string `id` and a string `title`.
pub open spec fn genre_ok(g: JsonValue) -> bool {
    text_of(field(g, "id"@)) is Some && text_of(field(g, "title"@)) is Some
}

/// The genre answer: `js` must be a list whose entries all have a string `id` and
/// `title`; gives them as (id, title).
pub fn genres_from_reply(v: &JsonValue) -> (r: Result<Vec<(String, String)>, ReplyError>)
    ensures
        match field(*v, "js"@) {
            Some(JsonValue::Array(items)) => match r {
                Ok(g) => g@.len() == items@.len() && forall|i: int|
                    0 <= i < g@.len() ==> text_of(field(items@[i], "id"@)) == Some(#[trigger] g@[i].0@)
                        && text_of(field(items@[i], "title"@)) == Some(g@[i].1@),
                Err(e) => e == ReplyError::MissingField && exists|i: int|
                    0 <= i < items@.len() && !genre_ok(#[trigger] items@[i]),
            },
            _ => r == Err::<Vec<(String, String)>, ReplyError>(ReplyError::NoList),
        },
{
    let items = match json_field(v, "js") {
        Some(JsonValue::Array(items)) => items,
        _ => return Err(ReplyError::NoList),
    };
    let mut out: Vec<(String, String)> = Vec::new();
    let mut i: usize = 0;
    while i < items.len()
        invariant
            i <= items.len(),
            field(*v, "js"@) == Some(JsonValue::Array(*items)),
            out@.len() == i,
            forall|j: int|
                0 <= j < i ==> text_of(field(items@[j], "id"@)) == Some(#[trigger] out@[j].0@)
                    && text_of(field(items@[j], "title"@)) == Some(out@[j].1@),
        decreases items.len() - i,
    {
        let id = json_text(json_field(&items[i], "id"));
        let title = json_text(json_field(&items[i], "title"));
        match (id, title) {
            (Some(a), Some(b)) => {
                out.push((a, b));
            },
            _ => {
                assert(!genre_ok(items@[i as int]));
                return Err(ReplyError::MissingField);
            },
        }
        i += 1;
    }
    Ok(out)
}

/// The first entry of a `cmds` list, read as (id, ch_id).
pub open spec fn first_cmd_ok(fc: Option<(Option<String>, Option<String>)>, cmds: Option<JsonValue>) -> bool {
    match cmds {
        Some(JsonValue::Array(cs)) => if cs@.len() > 0 {
            fc matches Some(p) && opt_seq(p.0) == text_of(field(cs@[0], "id"@)) && opt_seq(p.1) == text_of(
                field(cs@[0], "ch_id"@),
            )
        } else {
            fc is None
        },
        _ => fc is None,
    }
}

/// Whether an optional text member is absent, null or a string (what an `Option<String>`
/// field of a typed reading accepts).
pub open spec fn opt_text_ok(o: Option<JsonValue>) -> bool {
    match o {
        None => true,
        Some(JsonValue::Null) => true,
        Some(JsonValue::Str(_)) => true,
        _ => false,
    }
}

/// Whether an entry of `cmds` is an object whose `id` and `ch_id` are absent, null or
/// strings.
pub open spec fn cmd_entry_ok(c: JsonValue) -> bool {
    &&& c is Object
    &&& opt_text_ok(field(c, "id"@))
    &&& opt_text_ok(field(c, "ch_id"@))
}

/// Whether every entry of a `cmds` list is readable.
pub open spec fn all_cmd_entries_ok(cs: Seq<JsonValue>) -> bool {
    forall|i: int| 0 <= i < cs.len() ==> cmd_entry_ok(#[trigger] cs[i])
}

/// Whether `cmds` is absent, null, or a list of readable entries.
pub open spec fn cmds_ok(o: Option<JsonValue>) -> bool {
    match o {
        None => true,
        Some(JsonValue::Null) => true,
        Some(JsonValue::Array(cs)) => all_cmd_entries_ok(cs@),
        _ => false,
    }
}

/// Whether a channel entry can be read: a string `name` and `cmd`; `logo` and
/// `tv_genre_id` absent, null or strings; `cmds` readable.
pub open spec fn channel_entry_ok(item: JsonValue) -> bool {
    &&& text_of(field(item, "name"@)) is Some
    &&& text_of(field(item, "cmd"@)) is Some
    &&& opt_text_ok(field(item, "logo"@))
    &&& opt_text_ok(field(item, "tv_genre_id"@))
    &&& cmds_ok(field(item, "cmds"@))
}

fn opt_text_fits(o: Option<&JsonValue>) -> (r: bool)
    ensures
        r == opt_text_ok(opt_value(o)),
{
    match o {
        None => true,
        Some(JsonValue::Null) => true,
        Some(JsonValue::Str(_)) => true,
        _ => false,
    }
}

fn cmds_fit(o: Option<&JsonValue>) -> (r: bool)
    ensures
        r == cmds_ok(opt_value(o)),
{
    match o {
        None => true,
        Some(JsonValue::Null) => true,
        Some(JsonValue::Array(cs)) => {
            let mut i: usize = 0;
            while i < cs.len()
                invariant
                    i <= cs.len(),
                    opt_value(o) == Some(JsonValue::Array(*cs)),
                    forall|j: int| 0 <= j < i ==> cmd_entry_ok(#[trigger] cs@[j]),
                decreases cs.len() - i,
            {
                let c = &cs[i];
                let is_object = match c {
                    JsonValue::Object(_) => true,
                    _ => false,
                };
                if !(is_object && opt_text_fits(json_field(c, "id")) && opt_text_fits(json_field(c, "ch_id"))) {
                    assert(!cmd_entry_ok(cs@[i as int]));
                    return false;
                }
                i += 1;
            }
            true
        },
        _ => false,
    }
}

/// Whether `d` is what the engine reads from a channel entry.
pub open spec fn is_channel_data(d: ChannelData, item: JsonValue) -> bool {
    &&& text_of(field(item, "name"@)) == Some(d.name@)
    &&& text_of(field(item, "cmd"@)) == Some(d.cmd@)
    &&& opt_seq(d.logo) == text_of(field(item, "logo"@))
    &&& opt_seq(d.tv_genre_id) == text_of(field(item, "tv_genre_id"@))
    &&& first_cmd_ok(d.first_cmd, field(item, "cmds"@))
}

/// The entries of a channel answer: `js` must be there and neither null nor a list, and
/// its `data` must be a list.
pub open spec fn channel_entries(v: JsonValue) -> Result<Seq<JsonValue>, ReplyError> {
    match field(v, "js"@) {
        None => Err(ReplyError::NoJs),
        Some(JsonValue::Null) => Err(ReplyError::NoJs),
        Some(JsonValue::Array(_)) => Err(ReplyError::NoJs),
        Some(js) => match field(js, "data"@) {
            Some(JsonValue::Array(items)) => Ok(items@),
            _ => Err(ReplyError::NoList),
        },
    }
}

/// Whether `data` is what the engine reads from a channel answer: one entry each.
pub open spec fn is_channel_data_of(v: JsonValue, data: Seq<ChannelData>) -> bool {
    channel_entries(v) matches Ok(items) && data.len() == items.len() && forall|i: int|
        0 <= i < data.len() ==> is_channel_data(#[trigger] data[i], items[i])
}

/// Whether every channel entry can be read (see `channel_entry_ok`).
pub open spec fn all_channel_entries_ok(items: Seq<JsonValue>) -> bool {
    forall|i: int| 0 <= i < items.len() ==> channel_entry_ok(#[trigger] items[i])
}

/// Why a channel answer cannot be read, where it cannot.
pub open spec fn channel_reply_error(v: JsonValue) -> Option<ReplyError> {
    match channel_entries(v) {
        Err(e) => Some(e),
        Ok(items) => if all_channel_entries_ok(items) {
            None
        } else {
            Some(ReplyError::MissingField)
        },
    }
}

fn read_channel_data(item: &JsonValue) -> (r: Option<ChannelData>)
    ensures
        match r {
            Some(d) => channel_entry_ok(*item) && is_channel_data(d, *item),
            None => !channel_entry_ok(*item),
        },
{
    let name = match json_text(json_field(item, "name")) {
        Some(n) => n,
        None => return None,
    };
    let cmd = match json_text(json_field(item, "cmd")) {
        Some(c) => c,
        None => return None,
    };
    if !(opt_text_fits(json_field(item, "logo")) && opt_text_fits(json_field(item, "tv_genre_id"))
        && cmds_fit(json_field(item, "cmds"))) {
        return None;
    }
    let first_cmd = match json_field(item, "cmds") {
        Some(JsonValue::Array(cs)) => if cs.len() > 0 {
            Some((json_text(json_field(&cs[0], "id")), json_text(json_field(&cs[0], "ch_id"))))
        } else {
            None
        },
        _ => None,
    };
    Some(
        ChannelData {
            name,
            cmd,
            logo: json_text(json_field(item, "logo")),
            tv_genre_id: json_text(json_field(item, "tv_genre_id")),
            first_cmd,
        },
    )
}

/// The channel entries of a channel answer (see `channel_reply_error` and
/// `is_channel_data_of`).
pub fn channel_data_from_reply(v: &JsonValue) -> (r: Result<Vec<ChannelData>, ReplyError>)
    ensures
        match r {
            Ok(d) => channel_reply_error(*v) is None && is_channel_data_of(*v, d@),
            Err(e) => channel_reply_error(*v) == Some(e),
        },
{
    let js = match json_field(v, "js") {
        None => return Err(ReplyError::NoJs),
        Some(JsonValue::Null) => return Err(ReplyError::NoJs),
        Some(JsonValue::Array(_)) => return Err(ReplyError::NoJs),
        Some(js) => js,
    };
    let items = match json_field(js, "data") {
        Some(JsonValue::Array(items)) => items,
        _ => return Err(ReplyError::NoList),
    };
    assert(channel_entries(*v) == Ok::<Seq<JsonValue>, ReplyError>(items@));
    let mut out: Vec<ChannelData> = Vec::new();
    let mut i: usize = 0;
    while i < items.len()
        invariant
            i <= items.len(),
            channel_entries(*v) == Ok::<Seq<JsonValue>, ReplyError>(items@),
            out@.len() == i,
            forall|j: int| 0 <= j < i ==> is_channel_data(#[trigger] out@[j], items@[j]),
            forall|j: int| 0 <= j < i ==> channel_entry_ok(#[trigger] items@[j]),
        decreases items.len() - i,
    {
        match read_channel_data(&items[i]) {
            Some(d) => {
                out.push(d);
            },
            None => {
                assert(!channel_entry_ok(items@[i as int]));
                assert(!all_channel_entries_ok(items@));
                assert(channel_reply_error(*v) == Some(ReplyError::MissingField));
                return Err(ReplyError::MissingField);
            },
        }
        i += 1;
    }
    Ok(out)
}

/// The channels of a channel answer, their genres named from `genres`.
pub fn channels_from_reply(v: &JsonValue, genres: &Vec<(String, String)>) -> (r: Result<Vec<Channel>, ReplyError>)
    ensures
        match r {
            Ok(chs) => channel_reply_error(*v) is None && exists|data: Seq<ChannelData>|
                #[trigger] is_channel_data_of(*v, data) && chs@.map_values(|c: Channel| channel_view(c))
                    == channels_of(data, crate::proxy::pairs_view(genres@)),
            Err(e) => channel_reply_error(*v) == Some(e),
        },
{
    match channel_data_from_reply(v) {
        Ok(data) => {
            let chs = channels_from_data(&data, genres);
            assert(is_channel_data_of(*v, data@));
            Ok(chs)
        },
        Err(e) => Err(e),
    }
}

/// Whether a category entry is kept: anything but an object whose `title` is a string
/// starting with `#`.
pub open spec fn category_kept(item: JsonValue) -> bool {
    !((item is Object) && (text_of(field(item, "title"@)) matches Some(t) && t.len() > 0 && t[0] == '#'))
}

/// The positions of the kept entries of a list, in order.
pub open spec fn kept_categories(items: Seq<JsonValue>) -> Seq<usize>
    decreases items.len(),
{
    if items.len() == 0 {
        Seq::empty()
    } else {
        let prev = kept_categories(items.drop_last());
        if category_kept(items.last()) {
            prev.push((items.len() - 1) as usize)
        } else {
            prev
        }
    }
}

/// The category answer: `js` must be a list; gives the positions of the entries kept.
pub fn category_positions(v: &JsonValue) -> (r: Result<Vec<usize>, ReplyError>)
    ensures
        match field(*v, "js"@) {
            Some(JsonValue::Array(items)) => r matches Ok(p) && p@ == kept_categories(items@),
            _ => r == Err::<Vec<usize>, ReplyError>(ReplyError::NoList),
        },
{
    let items = match json_field(v, "js") {
        Some(JsonValue::Array(items)) => items,
        _ => return Err(ReplyError::NoList),
    };
    let mut out: Vec<usize> = Vec::new();
    let mut i: usize = 0;
    while i < items.len()
        invariant
            i <= items.len(),
            out@ == kept_categories(items@.subrange(0, i as int)),
        decreases items.len() - i,
    {
        let ghost after = items@.subrange(0, i + 1);
        assert(after.drop_last() =~= items@.subrange(0, i as int));
        assert(after.last() == items@[i as int]);
        let is_object = match &items[i] {
            JsonValue::Object(_) => true,
            _ => false,
        };
        let title = json_text(json_field(&items[i], "title"));
        let sep = match &title {
            Some(t) => {
                let c = chars_of(t.as_str());
                c.len() > 0 && c[0] == '#'
            },
            None => false,
        };
        if !(is_object && sep) {
            out.push(i);
        }
        i += 1;
    }
    assert(items@.subrange(0, items@.len() as int) =~= items@);
    Ok(out)
}

/// The `cmd` of a `create_link` answer (`js.cmd`), which must be a string.
pub fn link_cmd_from_reply(v: &JsonValue) -> (r: Result<String, ReplyError>)
    ensures
        match text_of(at(field(*v, "js"@), "cmd"@)) {
            Some(c) => r matches Ok(s) && s@ == c,
            None => r == Err::<String, ReplyError>(ReplyError::MissingField),
        },
{
    match json_text(json_at(json_field(v, "js"), "cmd")) {
        Some(c) => Ok(c),
        None => Err(ReplyError::MissingField),
    }
}

// ---------------------------------------------------------------------------
// EPG
// ---------------------------------------------------------------------------

/// Whether `e` is what the engine reads from an EPG entry.
pub open spec fn is_epg_item(e: EpgItem, item: JsonValue) -> bool {
    &&& opt_seq(e.name) == text_of(field(item, "name"@))
    &&& opt_seq(e.descr) == text_of(field(item, "descr"@))
    &&& e.start_timestamp == int_of(field(item, "start_timestamp"@))
    &&& e.time == int_of(field(item, "time"@))
    &&& e.stop_timestamp == int_of(field(item, "stop_timestamp"@))
    &&& e.time_to == int_of(field(item, "time_to"@))
    &&& opt_seq(e.ch_id) == text_of(field(item, "ch_id"@))
    &&& opt_seq(e.id) == text_of(field(item, "id"@))
}

fn read_epg_item(item: &JsonValue) -> (r: EpgItem)
    ensures
        is_epg_item(r, *item),
{
    EpgItem {
        name: json_text(json_field(item, "name")),
        descr: json_text(json_field(item, "descr")),
        start_timestamp: json_int(json_field(item, "start_timestamp")),
        time: json_int(json_field(item, "time")),
        stop_timestamp: json_int(json_field(item, "stop_timestamp")),
        time_to: json_int(json_field(item, "time_to")),
        ch_id: json_text(json_field(item, "ch_id")),
        id: json_text(json_field(item, "id")),
    }
}

/// Whether `out` holds one item read from each of `items`.
pub open spec fn reads_epg(out: Seq<EpgItem>, items: Seq<JsonValue>) -> bool {
    out.len() == items.len() && forall|i: int| 0 <= i < out.len() ==> is_epg_item(#[trigger] out[i], items[i])
}

fn read_epg_list(items: &Vec<JsonValue>, out: &mut Vec<EpgItem>)
    ensures
        final(out)@.len() >= old(out)@.len(),
        final(out)@.subrange(0, old(out)@.len() as int) == old(out)@,
        reads_epg(final(out)@.subrange(old(out)@.len() as int, final(out)@.len() as int), items@),
{
    let ghost start = out@.len();
    let mut i: usize = 0;
    while i < items.len()
        invariant
            i <= items.len(),
            out@.len() == start + i,
            out@.subrange(0, start as int) == old(out)@,
            start == old(out)@.len(),
            forall|j: int| 0 <= j < i ==> is_epg_item(#[trigger] out@[start + j], items@[j]),
        decreases items.len() - i,
    {
        let e = read_epg_item(&items[i]);
        let ghost before = out@;
        out.push(e);
        assert(out@.subrange(0, start as int) =~= before.subrange(0, start as int));
        i += 1;
    }
    let ghost tail = out@.subrange(start as int, out@.len() as int);
    assert forall|j: int| 0 <= j < tail.len() implies is_epg_item(#[trigger] tail[j], items@[j]) by {
        assert(tail[j] == out@[start + j]);
    }
}

/// The entries of a channel's EPG answer: `js.data` where it is a list, else none.
pub open spec fn channel_epg_entries(v: Option<JsonValue>) -> Seq<JsonValue> {
    match at(at(v, "js"@), "data"@) {
        Some(JsonValue::Array(items)) => items@,
        _ => Seq::empty(),
    }
}

/// The EPG items of a channel's EPG answer (`None` where the body is no JSON, which
/// gives none).
pub fn epg_items_for_channel(v: Option<&JsonValue>) -> (r: Vec<EpgItem>)
    ensures
        reads_epg(r@, channel_epg_entries(opt_value(v))),
{
    let mut out: Vec<EpgItem> = Vec::new();
    match json_at(json_at(v, "js"), "data") {
        Some(JsonValue::Array(items)) => {
            read_epg_list(items, &mut out);
            assert(out@.subrange(0, out@.len() as int) =~= out@);
        },
        _ => {},
    }
    out
}

/// The lists of an object's entries, in order, one after the other (entries that are
/// no list add nothing).
pub open spec fn joined_lists(es: Seq<(String, JsonValue)>) -> Seq<JsonValue>
    decreases es.len(),
{
    if es.len() == 0 {
        Seq::empty()
    } else {
        joined_lists(es.drop_last()) + match es.last().1 {
            JsonValue::Array(a) => a@,
            _ => Seq::empty(),
        }
    }
}

/// The entries of the whole EPG answer: the lists of the object `js.data`, in order.
pub open spec fn all_epg_entries(v: Option<JsonValue>) -> Seq<JsonValue> {
    match at(at(v, "js"@), "data"@) {
        Some(JsonValue::Object(es)) => joined_lists(es@),
        _ => Seq::empty(),
    }
}

/// The EPG items of the whole EPG answer.
pub fn epg_items_all(v: Option<&JsonValue>) -> (r: Vec<EpgItem>)
    ensures
        reads_epg(r@, all_epg_entries(opt_value(v))),
{
    let mut out: Vec<EpgItem> = Vec::new();
    match json_at(json_at(v, "js"), "data") {
        Some(JsonValue::Object(es)) => {
            let mut i: usize = 0;
            while i < es.len()
                invariant
                    i <= es.len(),
                    reads_epg(out@, joined_lists(es@.subrange(0, i as int))),
                decreases es.len() - i,
            {
                let ghost sub = es@.subrange(0, i + 1);
                assert(sub.drop_last() =~= es@.subrange(0, i as int));
                assert(sub.last() == es@[i as int]);
                let ghost before = out@;
                let ghost prev = joined_lists(es@.subrange(0, i as int));
                match &es[i].1 {
                    JsonValue::Array(a) => {
                        read_epg_list(a, &mut out);
                        let ghost added = out@.subrange(before.len() as int, out@.len() as int);
                        assert forall|j: int| 0 <= j < out@.len() implies is_epg_item(
                            #[trigger] out@[j],
                            (prev + a@)[j],
                        ) by {
                            if j < before.len() {
                                assert(out@[j] == out@.subrange(0, before.len() as int)[j]);
                            } else {
                                assert(out@[j] == added[j - before.len()]);
                            }
                        }
                    },
                    _ => {
                        assert(prev + Seq::<JsonValue>::empty() =~= prev);
                    },
                }
                i += 1;
            }
            assert(es@.subrange(0, es@.len() as int) =~= es@);
        },
        _ => {},
    }
    out
}

/// The number of channels a `get_all_channels` answer lists: the length of `js.data`
/// where `js` has `data` (0 where that is no list), else of `js` where it is a list,
/// else 0; `None` where there is no `js`.
pub open spec fn channel_count_of(v: JsonValue) -> Option<nat> {
    match field(v, "js"@) {
        None => None,
        Some(js) => Some(
            match field(js, "data"@) {
                Some(JsonValue::Array(a)) => a@.len(),
                Some(_) => 0,
                None => match js {
                    JsonValue::Array(a) => a@.len(),
                    _ => 0,
                },
            },
        ),
    }
}

pub fn channel_count(v: &JsonValue) -> (r: Option<usize>)
    ensures
        match channel_count_of(*v) {
            Some(n) => r == Some(n as usize),
            None => r is None,
        },
{
    let js = match json_field(v, "js") {
        Some(js) => js,
        None => return None,
    };
    Some(
        match json_field(js, "data") {
            Some(JsonValue::Array(a)) => a.len(),
            Some(_) => 0,
            None => match js {
                JsonValue::Array(a) => a.len(),
                _ => 0,
            },
        },
    )
}

// ---------------------------------------------------------------------------
// The EPG guide with the profile's time zone
// ---------------------------------------------------------------------------

/// What becomes of the portal's EPG guide.
#[derive(Debug, Clone, PartialEq, Eq)]
pub enum EpgAnswer {
    /// The guide with `timezone` set, as serialized.
    WithTimezone(String),
    /// The guide is passed on as it came.
    AsReceived,
    /// The guide is JSON but neither an object nor null: setting a member on it fails.
    NotAnObject,
}

/// The entry that sets the time zone.
pub open spec fn timezone_entry(tz: Seq<char>) -> Seq<(Seq<char>, Seq<char>)> {
    seq![("timezone"@, tz)]
}

/// The guide with the time zone set: an object gets the member `timezone`, null becomes
/// the object holding only it, and where serde_json gives nothing the guide passes as it
/// came; text that is no JSON passes as it came; other JSON cannot take the member.
pub open spec fn epg_answer_of(reply: Seq<char>, tz: Seq<char>, r: EpgAnswer) -> bool {
    match json_value_of(reply) {
        None => r is AsReceived,
        Some(JsonValue::Object(_)) => match json_object_with(reply, timezone_entry(tz)) {
            Some(t) => r matches EpgAnswer::WithTimezone(s) && s@ == t,
            None => r is AsReceived,
        },
        Some(JsonValue::Null) => match json_object_with("{}"@, timezone_entry(tz)) {
            Some(t) => r matches EpgAnswer::WithTimezone(s) && s@ == t,
            None => r is AsReceived,
        },
        Some(_) => r is NotAnObject,
    }
}

/// Sets the profile's time zone in the portal's EPG guide (see `epg_answer_of`).
pub fn epg_answer(reply: &str, tz: &str) -> (r: EpgAnswer)
    ensures
        epg_answer_of(reply@, tz@, r),
{
    let entries: Vec<(String, String)> = vec![(string_from_chars(chars_of("timezone")), string_from_chars(chars_of(tz)))];
    assert(pairs_view(entries@) =~= timezone_entry(tz@));
    let edited = match parse_json(reply) {
        None => return EpgAnswer::AsReceived,
        Some(JsonValue::Object(_)) => json_object_set(reply, &entries),
        Some(JsonValue::Null) => json_object_set("{}", &entries),
        Some(_) => return EpgAnswer::NotAnObject,
    };
    match edited {
        Some(t) => EpgAnswer::WithTimezone(t),
        None => EpgAnswer::AsReceived,
    }
}

} // verus!
