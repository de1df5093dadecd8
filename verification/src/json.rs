//! A plain model of JSON documents and the lookups the bot performs on them.

use vstd::prelude::*;
use crate::text::{trim_char, strip_leading, strip_trailing, str_equals};

verus! {

/// A JSON document. Numbers keep the text that the JSON library writes for
/// them; object members keep the library's member order.
pub enum Json {
    Null,
    Bool(bool),
    Number(String),
    Str(String),
    Array(Vec<Json>),
    Object(Vec<JsonMember>),
}

/// One `"key": value` member of a JSON object.
pub struct JsonMember {
    pub key: String,
    pub value: Json,
}

/// The value of the first member named `key`, scanning `members` from the front.
pub open spec fn member_value(members: Seq<JsonMember>, key: Seq<char>) -> Option<Json>
    decreases members.len(),
{
    if members.len() == 0 {
        None
    } else if members[0].key@ == key {
        Some(members[0].value)
    } else {
        member_value(members.drop_first(), key)
    }
}

/// The lookup finds the first member with the key: when it finds a value, some
/// member `k` has the key and that value and no earlier member has the key;
/// when it finds none, no member has the key.
pub proof fn lemma_member_value_is_first_match(members: Seq<JsonMember>, key: Seq<char>)
    ensures
        member_value(members, key) matches Some(v) ==> exists|k: int|
            0 <= k < members.len() && (#[trigger] members[k]).key@ == key && members[k].value == v && forall|j: int|
                0 <= j < k ==> (#[trigger] members[j]).key@ != key,
        member_value(members, key) is None ==> forall|j: int| 0 <= j < members.len() ==> (#[trigger] members[j]).key@ != key,
    decreases members.len(),
{
    if members.len() > 0 {
        let rest = members.drop_first();
        lemma_member_value_is_first_match(rest, key);
        if members[0].key@ == key {
            assert(members[0].key@ == key);
        } else {
            if let Some(v) = member_value(rest, key) {
                let k = choose|k: int|
                    0 <= k < rest.len() && (#[trigger] rest[k]).key@ == key && rest[k].value == v && forall|j: int|
                        0 <= j < k ==> (#[trigger] rest[j]).key@ != key;
                assert(members[k + 1] == rest[k]);
                assert forall|j: int| 0 <= j < k + 1 implies (#[trigger] members[j]).key@ != key by {
                    if j > 0 {
                        assert(members[j] == rest[j - 1]);
                    }
                }
            } else {
                assert forall|j: int| 0 <= j < members.len() implies (#[trigger] members[j]).key@ != key by {
                    if j > 0 {
                        assert(members[j] == rest[j - 1]);
                    }
                }
            }
        }
    }
}

/// `value.get(key)`: the member named `key` of an object, `None` for anything else.
pub open spec fn get(value: Json, key: Seq<char>) -> Option<Json> {
    match value {
        Json::Object(members) => member_value(members@, key),
        _ => None,
    }
}

/// `value.and_then(|v| v.get(key))`.
pub open spec fn then_get(value: Option<Json>, key: Seq<char>) -> Option<Json> {
    match value {
        Some(v) => get(v, key),
        None => None,
    }
}

/// An optional borrowed value, read as a value.
pub open spec fn deref(value: Option<&Json>) -> Option<Json> {
    match value {
        Some(v) => Some(*v),
        None => None,
    }
}

/// `value.as_str()`: the text of a JSON string.
pub open spec fn as_str(value: Json) -> Option<Seq<char>> {
    match value {
        Json::Str(s) => Some(s@),
        _ => None,
    }
}

/// The lower-case hexadecimal digit for `d` (which is below 16).
pub open spec fn hex_digit_lower(d: u32) -> char {
    if d < 10 {
        (('0' as u32) + d) as char
    } else {
        (('a' as u32) + d - 10) as char
    }
}

/// How the JSON library writes one character inside a JSON string: quote and
/// backslash are escaped by a backslash, backspace, tab, line feed, form feed
/// and carriage return by their short escapes, the other control characters
/// below U+0020 as `\u00XX` in lower-case hex, and everything else as itself.
pub open spec fn escape_char(c: char) -> Seq<char> {
    if c == '"' {
        seq!['\\', '"']
    } else if c == '\\' {
        seq!['\\', '\\']
    } else if c == '\u{8}' {
        seq!['\\', 'b']
    } else if c == '\t' {
        seq!['\\', 't']
    } else if c == '\n' {
        seq!['\\', 'n']
    } else if c == '\u{c}' {
        seq!['\\', 'f']
    } else if c == '\r' {
        seq!['\\', 'r']
    } else if (c as u32) < 0x20 {
        seq!['\\', 'u', '0', '0', hex_digit_lower((c as u32) / 16), hex_digit_lower((c as u32) % 16)]
    } else {
        seq![c]
    }
}

/// The escaped characters of `s`, one after the other.
pub open spec fn escaped(s: Seq<char>) -> Seq<char>
    decreases s.len(),
{
    if s.len() == 0 {
        Seq::empty()
    } else {
        escaped(s.drop_last()) + escape_char(s.last())
    }
}

/// The JSON text of a string: its escaped characters between double quotes.
pub open spec fn string_literal(s: Seq<char>) -> Seq<char> {
    seq!['"'] + escaped(s) + seq!['"']
}

/// The compact JSON text of a value, as the JSON library's `to_string` writes it:
/// no whitespace, array items and object members separated by commas.
pub open spec fn render(value: Json) -> Seq<char>
    decreases value,
{
    match value {
        Json::Null => seq!['n', 'u', 'l', 'l'],
        Json::Bool(b) => if b {
            seq!['t', 'r', 'u', 'e']
        } else {
            seq!['f', 'a', 'l', 's', 'e']
        },
        Json::Number(text) => text@,
        Json::Str(s) => string_literal(s@),
        Json::Array(items) => seq!['['] + render_items(items@) + seq![']'],
        Json::Object(members) => seq!['{'] + render_members(members@) + seq!['}'],
    }
}

/// The texts of `items`, separated by commas.
pub open spec fn render_items(items: Seq<Json>) -> Seq<char>
    decreases items,
{
    if items.len() == 0 {
        Seq::empty()
    } else if items.len() == 1 {
        render(items[0])
    } else {
        render_items(items.drop_last()) + seq![','] + render(items.last())
    }
}

/// The `"key":value` texts of `members`, separated by commas.
pub open spec fn render_members(members: Seq<JsonMember>) -> Seq<char>
    decreases members,
{
    if members.len() == 0 {
        Seq::empty()
    } else if members.len() == 1 {
        string_literal(members[0].key@) + seq![':'] + render(members[0].value)
    } else {
        render_members(members.drop_last()) + seq![','] + string_literal(members.last().key@)
            + seq![':'] + render(members.last().value)
    }
}

/// A character that the JSON text of a string writes as itself and that is no double quote.
pub open spec fn is_plain_char(c: char) -> bool {
    c != '"' && c != '\\' && (c as u32) >= 0x20
}

/// Escaping leaves a text of plain characters as it is.
pub proof fn lemma_escaped_plain(s: Seq<char>)
    requires
        forall|i: int| 0 <= i < s.len() ==> is_plain_char(#[trigger] s[i]),
    ensures
        escaped(s) == s,
    decreases s.len(),
{
    if s.len() > 0 {
        lemma_escaped_plain(s.drop_last());
        assert(is_plain_char(s[s.len() - 1]));
        assert(s.drop_last().push(s.last()) =~= s);
    }
}

/// Reading back a JSON string of plain characters: trimming the double quotes
/// from its JSON text gives the string again. (This is how the bot reads ids and
/// statuses out of JSON answers.)
pub proof fn lemma_unquote_plain_string(s: Seq<char>)
    requires
        forall|i: int| 0 <= i < s.len() ==> is_plain_char(#[trigger] s[i]),
    ensures
        trim_char(string_literal(s), '"') == s,
{
    lemma_escaped_plain(s);
    let lit = string_literal(s);
    let tail = s + seq!['"'];
    assert(lit =~= seq!['"'] + tail);
    assert(lit.drop_first() =~= tail);
    if s.len() == 0 {
        assert(tail.drop_first() =~= s);
        assert(strip_leading(tail.drop_first(), '"') == s);
        assert(strip_leading(tail, '"') == s);
        assert(strip_leading(lit, '"') == s);
    } else {
        assert(is_plain_char(s[0]));
        assert(tail[0] == s[0]);
        assert(strip_leading(tail, '"') == tail);
        assert(strip_leading(lit, '"') == tail);
        assert(tail.drop_last() =~= s);
        assert(is_plain_char(s[s.len() - 1]));
        assert(strip_trailing(s, '"') == s);
        assert(strip_trailing(tail, '"') == s);
    }
}

/// The JSON text of the string `s`, written by serde_json (as the `to_string` of a
/// `serde_json::Value::String`). The contract restates serde_json's escaping
/// table (`ser.rs`, `ESCAPE` and `write_char_escape`).
#[verifier::external_body]
fn json_string_literal(s: &str) -> (r: String)
    ensures
        r@ == string_literal(s@),
{
    serde_json::Value::String(s.to_string()).to_string()
}

/// Appends the compact JSON text of `value` to `out`.
fn render_into(value: &Json, out: &mut String)
    ensures
        final(out)@ == old(out)@ + render(*value),
    decreases value,
{
    match value {
        Json::Null => {
            out.append("null");
            proof { reveal_strlit("null"); }
        },
        Json::Bool(b) => {
            if *b {
                out.append("true");
                proof { reveal_strlit("true"); }
            } else {
                out.append("false");
                proof { reveal_strlit("false"); }
            }
        },
        Json::Number(text) => {
            out.append(text.as_str());
        },
        Json::Str(s) => {
            let lit = json_string_literal(s.as_str());
            out.append(lit.as_str());
        },
        Json::Array(items) => {
            let ghost start = out@;
            out.append("[");
            proof { reveal_strlit("["); }
            let n = items.len();
            let mut i: usize = 0;
            while i < n
                invariant
                    n == items@.len(),
                    i <= n,
                    out@ == start + seq!['['] + render_items(items@.take(i as int)),
                    decreases_to!(*value => items@),
                decreases n - i,
            {
                proof {
                    assert(decreases_to!(items@ => items@[i as int]));
                }
                if i > 0 {
                    out.append(",");
                    proof { reveal_strlit(","); }
                }
                render_into(&items[i], out);
                assert(items@.take(i + 1).drop_last() =~= items@.take(i as int));
                assert(items@.take(i + 1).last() == items@[i as int]);
                i = i + 1;
            }
            assert(items@.take(n as int) =~= items@);
            out.append("]");
            proof { reveal_strlit("]"); }
        },
        Json::Object(members) => {
            let ghost start = out@;
            out.append("{");
            proof { reveal_strlit("{"); }
            let n = members.len();
            let mut i: usize = 0;
            while i < n
                invariant
                    n == members@.len(),
                    i <= n,
                    out@ == start + seq!['{'] + render_members(members@.take(i as int)),
                    decreases_to!(*value => members@),
                decreases n - i,
            {
                proof {
                    assert(decreases_to!(members@ => members@[i as int]));
                }
                if i > 0 {
                    out.append(",");
                    proof { reveal_strlit(","); }
                }
                let key = json_string_literal(members[i].key.as_str());
                out.append(key.as_str());
                out.append(":");
                proof { reveal_strlit(":"); }
                render_into(&members[i].value, out);
                assert(members@.take(i + 1).drop_last() =~= members@.take(i as int));
                assert(members@.take(i + 1).last() == members@[i as int]);
                i = i + 1;
            }
            assert(members@.take(n as int) =~= members@);
            out.append("}");
            proof { reveal_strlit("}"); }
        },
    }
}

/// `value.to_string()`: the compact JSON text of `value`.
pub fn json_text(value: &Json) -> (r: String)
    ensures
        r@ == render(*value),
{
    let mut out = String::new();
    render_into(value, &mut out);
    out
}

/// Looks up the member named `key` of `value`, if `value` is an object.
pub fn json_get<'a>(value: &'a Json, key: &str) -> (r: Option<&'a Json>)
    ensures
        match r {
            Some(v) => get(*value, key@) == Some(*v),
            None => get(*value, key@) is None,
        },
{
    match value {
        Json::Object(members) => {
            let n = members.len();
            let mut i: usize = 0;
            assert(members@.skip(0) =~= members@);
            while i < n
                invariant
                    n == members@.len(),
                    get(*value, key@) == member_value(members@, key@),
                    i <= n,
                    member_value(members@, key@) == member_value(members@.skip(i as int), key@),
                decreases n - i,
            {
                assert(members@.skip(i as int).drop_first() =~= members@.skip(i + 1));
                assert(members@.skip(i as int)[0] == members@[i as int]);
                if str_equals(members[i].key.as_str(), key) {
                    assert(member_value(members@, key@) == Some(members@[i as int].value));
                    return Some(&members[i].value);
                }
                i = i + 1;
            }
            None
        },
        _ => None,
    }
}

/// `value.and_then(|v| v.get(key))` on an optional value.
pub fn json_then_get<'a>(value: Option<&'a Json>, key: &str) -> (r: Option<&'a Json>)
    ensures
        match r {
            Some(v) => then_get(deref(value), key@) == Some(*v),
            None => then_get(deref(value), key@) is None,
        },
{
    match value {
        Some(v) => json_get(v, key),
        None => None,
    }
}

} // verus!
