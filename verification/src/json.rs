//! The generic structured value produced by a parse, and its mathematical
//! view, used by every contract of this crate.
use vstd::prelude::*;

verus! {

/// A JSON-like structured value.
///
/// Numbers are carried as their decimal literal text: the reducer validates
/// the literal against the float grammar and normalizes extreme exponents
/// (see `crate::number`), and the serializer emits the text unchanged.
/// Object entries keep insertion order; inserting an existing key replaces
/// its value in place.
#[derive(Debug)]
pub enum JsonValue {
    JsonString(String),
    JsonNumber(String),
    JsonBool(bool),
    JsonNull,
    JsonArray(Vec<JsonValue>),
    JsonObject(Vec<(String, JsonValue)>),
}

/// The mathematical shape of a `JsonValue`: text as `Seq<char>`, containers
/// as sequences of views.
pub enum ValueView {
    VString(Seq<char>),
    VNumber(Seq<char>),
    VBool(bool),
    VNull,
    VArray(Seq<ValueView>),
    VObject(Seq<(Seq<char>, ValueView)>),
}

/// The view of a value: each piece of text becomes its character sequence.
pub open spec fn vview(v: JsonValue) -> ValueView
    decreases v,
{
    match v {
        JsonValue::JsonString(s) => ValueView::VString(s@),
        JsonValue::JsonNumber(s) => ValueView::VNumber(s@),
        JsonValue::JsonBool(b) => ValueView::VBool(b),
        JsonValue::JsonNull => ValueView::VNull,
        JsonValue::JsonArray(items) => ValueView::VArray(arr_views(items@)),
        JsonValue::JsonObject(entries) => ValueView::VObject(obj_views(entries@)),
    }
}

/// The views of the elements of an array, in order.
pub open spec fn arr_views(items: Seq<JsonValue>) -> Seq<ValueView>
    decreases items,
{
    if items.len() == 0 {
        Seq::empty()
    } else {
        seq![vview(items[0])] + arr_views(items.subrange(1, items.len() as int))
    }
}

/// The views of the entries of an object, in order.
pub open spec fn obj_views(entries: Seq<(String, JsonValue)>) -> Seq<(Seq<char>, ValueView)>
    decreases entries,
{
    if entries.len() == 0 {
        Seq::empty()
    } else {
        seq![(entries[0].0@, vview(entries[0].1))] + obj_views(
            entries.subrange(1, entries.len() as int),
        )
    }
}

/// Pointwise description of `arr_views`.
pub proof fn lemma_arr_views(items: Seq<JsonValue>)
    ensures
        arr_views(items).len() == items.len(),
        forall|i: int| 0 <= i < items.len() ==> arr_views(items)[i] == vview(items[i]),
    decreases items.len(),
{
    if items.len() > 0 {
        lemma_arr_views(items.subrange(1, items.len() as int));
    }
}

/// Pointwise description of `obj_views`.
pub proof fn lemma_obj_views(entries: Seq<(String, JsonValue)>)
    ensures
        obj_views(entries).len() == entries.len(),
        forall|i: int|
            0 <= i < entries.len() ==> obj_views(entries)[i] == (
                entries[i].0@,
                vview(entries[i].1),
            ),
    decreases entries.len(),
{
    if entries.len() > 0 {
        lemma_obj_views(entries.subrange(1, entries.len() as int));
    }
}

/// The first position holding key `k`, or `es.len()` if the key is absent.
pub open spec fn key_index(es: Seq<(Seq<char>, ValueView)>, k: Seq<char>) -> int
    decreases es.len(),
{
    if es.len() == 0 {
        0
    } else if es[0].0 == k {
        0
    } else {
        1 + key_index(es.subrange(1, es.len() as int), k)
    }
}

/// Insertion into an object: an existing key keeps its position and gets the
/// new value; a new key is appended.
pub open spec fn obj_insert(
    es: Seq<(Seq<char>, ValueView)>,
    k: Seq<char>,
    v: ValueView,
) -> Seq<(Seq<char>, ValueView)> {
    if key_index(es, k) < es.len() {
        es.update(key_index(es, k), (k, v))
    } else {
        es.push((k, v))
    }
}

/// `key_index` is the first matching position: everything before it differs
/// from `k`, and it matches if it is in range.
pub proof fn lemma_key_index(es: Seq<(Seq<char>, ValueView)>, k: Seq<char>)
    ensures
        0 <= key_index(es, k) <= es.len(),
        forall|j: int| 0 <= j < key_index(es, k) ==> es[j].0 != k,
        key_index(es, k) < es.len() ==> es[key_index(es, k)].0 == k,
    decreases es.len(),
{
    if es.len() == 0 {
    } else if es[0].0 == k {
    } else {
        lemma_key_index(es.subrange(1, es.len() as int), k);
        assert forall|j: int| 0 <= j < key_index(es, k) implies es[j].0 != k by {
            if j > 0 {
                assert(es.subrange(1, es.len() as int)[j - 1] == es[j]);
            }
        }
        if key_index(es, k) < es.len() {
            assert(es.subrange(1, es.len() as int)[key_index(es, k) - 1] == es[key_index(es, k)]);
        }
    }
}

/// `obj_views` maps an update pointwise.
pub proof fn lemma_obj_views_update(entries: Seq<(String, JsonValue)>, i: int, p: (String, JsonValue))
    requires
        0 <= i < entries.len(),
    ensures
        obj_views(entries.update(i, p)) == obj_views(entries).update(i, (p.0@, vview(p.1))),
{
    lemma_obj_views(entries);
    lemma_obj_views(entries.update(i, p));
    assert(obj_views(entries.update(i, p)) =~= obj_views(entries).update(i, (p.0@, vview(p.1))));
}

/// `obj_views` maps a push pointwise.
pub proof fn lemma_obj_views_push(entries: Seq<(String, JsonValue)>, p: (String, JsonValue))
    ensures
        obj_views(entries.push(p)) == obj_views(entries).push((p.0@, vview(p.1))),
{
    lemma_obj_views(entries);
    lemma_obj_views(entries.push(p));
    assert(obj_views(entries.push(p)) =~= obj_views(entries).push((p.0@, vview(p.1))));
}

/// `arr_views` maps a push pointwise.
pub proof fn lemma_arr_views_push(items: Seq<JsonValue>, v: JsonValue)
    ensures
        arr_views(items.push(v)) == arr_views(items).push(vview(v)),
{
    lemma_arr_views(items);
    lemma_arr_views(items.push(v));
    assert(arr_views(items.push(v)) =~= arr_views(items).push(vview(v)));
}

/// The text of a quoted string with its first and last characters — the
/// quote delimiters — removed; empty if there is no room for delimiters.
pub open spec fn unquote(s: Seq<char>) -> Seq<char> {
    if s.len() >= 2 {
        s.subrange(1, s.len() - 1)
    } else {
        Seq::empty()
    }
}

/// Strips the quote delimiters from a string span's text.
pub fn unquote_text(s: &str) -> (r: String)
    ensures
        r@ == unquote(s@),
{
    let n = s.unicode_len();
    if n >= 2 {
        let m = s.substring_char(1, n - 1);
        proof {
            assert(m@ =~= s@.subrange(1, s@.len() - 1));
        }
        m.to_owned()
    } else {
        String::new()
    }
}

/// The lower-case hexadecimal digit for `n`.
pub open spec fn hex_digit(n: int) -> char {
    if n == 0 {
        '0'
    } else if n == 1 {
        '1'
    } else if n == 2 {
        '2'
    } else if n == 3 {
        '3'
    } else if n == 4 {
        '4'
    } else if n == 5 {
        '5'
    } else if n == 6 {
        '6'
    } else if n == 7 {
        '7'
    } else if n == 8 {
        '8'
    } else if n == 9 {
        '9'
    } else if n == 10 {
        'a'
    } else if n == 11 {
        'b'
    } else if n == 12 {
        'c'
    } else if n == 13 {
        'd'
    } else if n == 14 {
        'e'
    } else {
        'f'
    }
}

/// How one character is written inside a quoted string: quote and backslash
/// are escaped, the named control characters take their short escapes, any
/// other control character takes a `\u00..` escape, everything else stands
/// as itself.
pub open spec fn esc_char(c: char) -> Seq<char> {
    if c == '"' {
        "\\\""@
    } else if c == '\\' {
        "\\\\"@
    } else if c == '\u{8}' {
        "\\b"@
    } else if c == '\t' {
        "\\t"@
    } else if c == '\n' {
        "\\n"@
    } else if c == '\u{c}' {
        "\\f"@
    } else if c == '\r' {
        "\\r"@
    } else if (c as u32) < 32 {
        "\\u00"@ + seq![hex_digit(c as u32 as int / 16), hex_digit(c as u32 as int % 16)]
    } else {
        seq![c]
    }
}

/// A character that is written as itself inside a quoted string.
pub open spec fn plain_char(c: char) -> bool {
    c != '"' && c != '\\' && c as u32 >= 32
}

/// Escaping changes nothing in text of plain characters.
pub proof fn lemma_escape_plain(s: Seq<char>, i: int)
    requires
        0 <= i <= s.len(),
        forall|j: int| 0 <= j < s.len() ==> plain_char(#[trigger] s[j]),
    ensures
        escape_string(s, i) == s.subrange(i, s.len() as int),
    decreases s.len() - i,
{
    if i < s.len() {
        lemma_escape_plain(s, i + 1);
        assert(esc_char(s[i]) == seq![s[i]]);
        assert(esc_char(s[i]) + escape_string(s, i + 1) =~= s.subrange(i, s.len() as int));
    } else {
        assert(escape_string(s, i) =~= s.subrange(i, s.len() as int));
    }
}

/// The escaped writing of the characters of `s` from position `i` on.
pub open spec fn escape_string(s: Seq<char>, i: int) -> Seq<char>
    decreases s.len() - i,
{
    if i < 0 || i >= s.len() {
        Seq::empty()
    } else {
        esc_char(s[i]) + escape_string(s, i + 1)
    }
}

/// A string as it is serialized: quoted and escaped.
pub open spec fn quoted(s: Seq<char>) -> Seq<char> {
    "\""@ + escape_string(s, 0) + "\""@
}

/// The serialized text of a value: objects as `{"k":v,…}` in entry order,
/// arrays as `[v,…]`, strings quoted and escaped, numbers as their literal
/// text, booleans and null as their tokens. A number is the stored text
/// verbatim: a literal the float grammar admits beyond JSON's own — `inf`,
/// `nan`, an exponent a double overflows on — appears as that text. The
/// host boundary in app/ reads numbers as doubles and prints them the
/// host's way instead.
pub open spec fn ser_value(v: ValueView) -> Seq<char>
    decreases v, 0int,
{
    match v {
        ValueView::VString(s) => quoted(s),
        ValueView::VNumber(t) => t,
        ValueView::VBool(b) => if b {
            "true"@
        } else {
            "false"@
        },
        ValueView::VNull => "null"@,
        ValueView::VArray(items) => "["@ + ser_items(items, 0) + "]"@,
        ValueView::VObject(es) => "{"@ + ser_entries(es, 0) + "}"@,
    }
}

/// The serialized elements of an array from position `i` on, separated by
/// commas.
pub open spec fn ser_items(items: Seq<ValueView>, i: int) -> Seq<char>
    decreases items, items.len() - i,
{
    if i < 0 || i >= items.len() {
        Seq::empty()
    } else {
        ser_value(items[i]) + (if i + 1 < items.len() {
            ","@ + ser_items(items, i + 1)
        } else {
            Seq::empty()
        })
    }
}

/// The serialized entries of an object from position `i` on, separated by
/// commas.
pub open spec fn ser_entries(es: Seq<(Seq<char>, ValueView)>, i: int) -> Seq<char>
    decreases es, es.len() - i,
{
    if i < 0 || i >= es.len() {
        Seq::empty()
    } else {
        quoted(es[i].0) + ":"@ + ser_value(es[i].1) + (if i + 1 < es.len() {
            ","@ + ser_entries(es, i + 1)
        } else {
            Seq::empty()
        })
    }
}

/// The lower-case hexadecimal digit for `n`, as text.
fn hex_str(n: u32) -> (r: &'static str)
    requires
        n < 16,
    ensures
        r@ == seq![hex_digit(n as int)],
{
    proof {
        reveal_strlit("0");
        reveal_strlit("1");
        reveal_strlit("2");
        reveal_strlit("3");
        reveal_strlit("4");
        reveal_strlit("5");
        reveal_strlit("6");
        reveal_strlit("7");
        reveal_strlit("8");
        reveal_strlit("9");
        reveal_strlit("a");
        reveal_strlit("b");
        reveal_strlit("c");
        reveal_strlit("d");
        reveal_strlit("e");
        reveal_strlit("f");
    }
    if n == 0 {
        "0"
    } else if n == 1 {
        "1"
    } else if n == 2 {
        "2"
    } else if n == 3 {
        "3"
    } else if n == 4 {
        "4"
    } else if n == 5 {
        "5"
    } else if n == 6 {
        "6"
    } else if n == 7 {
        "7"
    } else if n == 8 {
        "8"
    } else if n == 9 {
        "9"
    } else if n == 10 {
        "a"
    } else if n == 11 {
        "b"
    } else if n == 12 {
        "c"
    } else if n == 13 {
        "d"
    } else if n == 14 {
        "e"
    } else {
        "f"
    }
}

/// Writes `s` as a quoted, escaped string onto `out`.
fn write_quoted(s: &str, out: &mut String)
    ensures
        final(out)@ == old(out)@ + quoted(s@),
{
    let ghost entry = old(out)@;
    out.append("\"");
    let n = s.unicode_len();
    let mut i: usize = 0;
    while i < n
        invariant
            i <= n,
            n == s@.len(),
            out@ + escape_string(s@, i as int) + "\""@ == entry + quoted(s@),
        decreases n - i,
    {
        let c = s.get_char(i);
        let ghost before = out@;
        if c == '"' {
            out.append("\\\"");
        } else if c == '\\' {
            out.append("\\\\");
        } else if c == '\u{8}' {
            out.append("\\b");
        } else if c == '\t' {
            out.append("\\t");
        } else if c == '\n' {
            out.append("\\n");
        } else if c == '\u{c}' {
            out.append("\\f");
        } else if c == '\r' {
            out.append("\\r");
        } else if (c as u32) < 32 {
            out.append("\\u00");
            out.append(hex_str(c as u32 / 16));
            out.append(hex_str(c as u32 % 16));
        } else {
            let piece = s.substring_char(i, i + 1);
            proof {
                assert(piece@ =~= seq![s@[i as int]]);
            }
            out.append(piece);
        }
        proof {
            assert(out@ =~= before + esc_char(s@[i as int]));
            assert(out@ + escape_string(s@, i as int + 1) + "\""@ =~= entry + quoted(s@));
        }
        i = i + 1;
    }
    out.append("\"");
    proof {
        assert(out@ =~= entry + quoted(s@));
    }
}

/// Writes the serialized text of `v` onto `out`.
fn serialize_into(v: &JsonValue, out: &mut String)
    ensures
        final(out)@ == old(out)@ + ser_value(vview(*v)),
    decreases *v,
{
    let ghost entry = old(out)@;
    match v {
        JsonValue::JsonString(s) => {
            write_quoted(s.as_str(), out);
        },
        JsonValue::JsonNumber(t) => {
            out.append(t.as_str());
        },
        JsonValue::JsonBool(b) => {
            if *b {
                out.append("true");
            } else {
                out.append("false");
            }
        },
        JsonValue::JsonNull => {
            out.append("null");
        },
        JsonValue::JsonArray(items) => {
            proof {
                lemma_arr_views(items@);
            }
            let ghost g = arr_views(items@);
            out.append("[");
            let n = items.len();
            let mut i: usize = 0;
            while i < n
                invariant
                    *v == JsonValue::JsonArray(*items),
                    i <= n,
                    n == items@.len(),
                    g == arr_views(items@),
                    g.len() == n,
                    forall|j: int| 0 <= j < n ==> g[j] == vview(items@[j]),
                    out@ + (if i == 0 {
                        ser_items(g, 0)
                    } else if i < n {
                        ","@ + ser_items(g, i as int)
                    } else {
                        Seq::<char>::empty()
                    }) + "]"@ == entry + ser_value(ValueView::VArray(g)),
                decreases n - i,
            {
                if i > 0 {
                    out.append(",");
                }
                proof {
                    assert(decreases_to!(*v => (*v)->JsonArray_0));
                    assert((*v)->JsonArray_0 == *items);
                    assert(decreases_to!(*items => items@));
                    assert(decreases_to!(items@ => items@[i as int]));
                }
                serialize_into(&items[i], out);
                i = i + 1;
            }
            out.append("]");
        },
        JsonValue::JsonObject(entries) => {
            proof {
                lemma_obj_views(entries@);
            }
            let ghost g = obj_views(entries@);
            out.append("{");
            let n = entries.len();
            let mut i: usize = 0;
            while i < n
                invariant
                    *v == JsonValue::JsonObject(*entries),
                    i <= n,
                    n == entries@.len(),
                    g == obj_views(entries@),
                    g.len() == n,
                    forall|j: int|
                        0 <= j < n ==> g[j] == (entries@[j].0@, vview(entries@[j].1)),
                    out@ + (if i == 0 {
                        ser_entries(g, 0)
                    } else if i < n {
                        ","@ + ser_entries(g, i as int)
                    } else {
                        Seq::<char>::empty()
                    }) + "}"@ == entry + ser_value(ValueView::VObject(g)),
                decreases n - i,
            {
                if i > 0 {
                    out.append(",");
                }
                write_quoted(entries[i].0.as_str(), out);
                out.append(":");
                proof {
                    assert(decreases_to!(*v => (*v)->JsonObject_0));
                    assert((*v)->JsonObject_0 == *entries);
                    assert(decreases_to!(*entries => entries@));
                    assert(decreases_to!(entries@ => entries@[i as int]));
                    assert(decreases_to!(entries@[i as int] => entries@[i as int].1));
                }
                serialize_into(&entries[i].1, out);
                i = i + 1;
            }
            out.append("}");
        },
    }
}

impl JsonValue {
    /// The serialized text of this value.
    pub fn serialize(&self) -> (r: String)
        ensures
            r@ == ser_value(vview(*self)),
    {
        let mut out = String::new();
        serialize_into(self, &mut out);
        out
    }
}

} // verus!
