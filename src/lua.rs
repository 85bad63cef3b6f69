use vstd::prelude::*;

use crate::deps::{text_le, text_le_exec};
use crate::model::{Json, RequiredByInfo, RequiredByView, Text, TextList};
use crate::text::{chars_vec, push_char, push_str, string_of, trim, trim_bounds, trim_string};

verus! {

/// How one character is written inside a quoted literal.
pub open spec fn escape_char(c: char) -> Text {
    if c == '\\' {
        seq!['\\', '\\']
    } else if c == '"' {
        seq!['\\', '"']
    } else if c == '\n' {
        seq!['\\', 'n']
    } else if c == '\r' {
        seq!['\\', 'r']
    } else if c == '\t' {
        seq!['\\', 't']
    } else {
        seq![c]
    }
}

/// A text with backslash, double quote, line feed, carriage return and tab
/// escaped; every other character kept as it is.
pub open spec fn escape(s: Text) -> Text
    decreases s.len(),
{
    if s.len() == 0 {
        Seq::<char>::empty()
    } else {
        escape_char(s[0]) + escape(s.drop_first())
    }
}

/// A text as a double-quoted string literal.
pub open spec fn quote(s: Text) -> Text {
    seq!['"'] + escape(s) + seq!['"']
}

/// What a literal body stands for under the target language's short-string
/// rules, for the escapes that `escape` writes; none where the body holds a
/// raw double quote or line break, or another escape.
pub open spec fn unescape(t: Text) -> Option<Text>
    decreases t.len(),
{
    if t.len() == 0 {
        Some(Seq::<char>::empty())
    } else if t[0] == '\\' {
        if t.len() < 2 {
            None
        } else {
            let c = t[1];
            let d = if c == '\\' {
                Some('\\')
            } else if c == '"' {
                Some('"')
            } else if c == 'n' {
                Some('\n')
            } else if c == 'r' {
                Some('\r')
            } else if c == 't' {
                Some('\t')
            } else {
                None
            };
            match (d, unescape(t.subrange(2, t.len() as int))) {
                (Some(x), Some(rest)) => Some(seq![x] + rest),
                _ => None,
            }
        }
    } else if t[0] == '"' || t[0] == '\n' || t[0] == '\r' {
        None
    } else {
        match unescape(t.drop_first()) {
            Some(rest) => Some(seq![t[0]] + rest),
            None => None,
        }
    }
}

/// What a double-quoted literal stands for.
pub open spec fn read_literal(t: Text) -> Option<Text> {
    if t.len() >= 2 && t[0] == '"' && t[t.len() - 1] == '"' {
        unescape(t.subrange(1, t.len() - 1))
    } else {
        None
    }
}

pub proof fn lemma_unescape_escape(s: Text)
    ensures
        unescape(escape(s)) == Some(s),
    decreases s.len(),
{
    if s.len() > 0 {
        let c = s[0];
        let e = escape(s);
        let rest = escape(s.drop_first());
        lemma_unescape_escape(s.drop_first());
        assert(e == escape_char(c) + rest);
        if c == '\\' || c == '"' || c == '\n' || c == '\r' || c == '\t' {
            assert(e.subrange(2, e.len() as int) =~= rest);
        } else {
            assert(e.drop_first() =~= rest);
        }
        assert(seq![c] + s.drop_first() =~= s);
    }
}

/// A quoted literal reads back as exactly the text it was written from.
pub proof fn lemma_literal_round_trip(s: Text)
    ensures
        read_literal(quote(s)) == Some(s),
{
    let q = quote(s);
    lemma_unescape_escape(s);
    assert(q.subrange(1, q.len() - 1) =~= escape(s));
}

proof fn lemma_escape_push(s: Text, c: char)
    ensures
        escape(s.push(c)) == escape(s) + escape_char(c),
    decreases s.len(),
{
    if s.len() == 0 {
        let t = s.push(c);
        assert(t.drop_first() =~= Seq::<char>::empty());
        assert(t[0] == c);
        assert(escape(t.drop_first()) == Seq::<char>::empty());
        assert(escape(t) == escape_char(c) + escape(t.drop_first()));
        assert(escape(t) =~= escape_char(c));
        assert(escape(s) == Seq::<char>::empty());
        assert(escape(s) + escape_char(c) =~= escape_char(c));
    } else {
        lemma_escape_push(s.drop_first(), c);
        assert(s.push(c).drop_first() =~= s.drop_first().push(c));
        assert(escape(s.push(c)) =~= escape(s) + escape_char(c));
    }
}

/// Appends the escaped form of `v[lo..hi]` to `out`.
pub fn push_escaped(out: &mut String, v: &Vec<char>, lo: usize, hi: usize)
    requires
        lo <= hi <= v.len(),
    ensures
        final(out)@ == old(out)@ + escape(v@.subrange(lo as int, hi as int)),
{
    let ghost start = out@;
    let mut i = lo;
    assert(v@.subrange(lo as int, lo as int) =~= Seq::<char>::empty());
    assert(start + escape(Seq::<char>::empty()) =~= start);
    while i < hi
        invariant
            lo <= i <= hi <= v.len(),
            out@ == start + escape(v@.subrange(lo as int, i as int)),
        decreases hi - i,
    {
        let c = v[i];
        if c == '\\' {
            push_char(out, '\\');
            push_char(out, '\\');
        } else if c == '"' {
            push_char(out, '\\');
            push_char(out, '"');
        } else if c == '\n' {
            push_char(out, '\\');
            push_char(out, 'n');
        } else if c == '\r' {
            push_char(out, '\\');
            push_char(out, 'r');
        } else if c == '\t' {
            push_char(out, '\\');
            push_char(out, 't');
        } else {
            push_char(out, c);
        }
        proof {
            let p = v@.subrange(lo as int, i as int);
            assert(v@.subrange(lo as int, i + 1) =~= p.push(c));
            lemma_escape_push(p, c);
            assert(out@ =~= start + escape(v@.subrange(lo as int, i + 1)));
        }
        i = i + 1;
    }
}

/// Appends a text as a quoted literal.
pub fn push_quoted(out: &mut String, s: &str)
    ensures
        final(out)@ == old(out)@ + quote(s@),
{
    let v = chars_vec(s);
    let ghost start = out@;
    push_char(out, '"');
    push_escaped(out, &v, 0, v.len());
    push_char(out, '"');
    assert(v@.subrange(0, v.len() as int) =~= s@);
    assert(out@ =~= start + quote(s@));
}

/// The escaped form of a text.
pub fn lua_escape(input: &str) -> (r: String)
    ensures
        r@ == escape(input@),
{
    let v = chars_vec(input);
    let mut r = String::new();
    push_escaped(&mut r, &v, 0, v.len());
    assert(v@.subrange(0, v.len() as int) =~= input@);
    assert(r@ =~= escape(input@));
    r
}

/// A text as a quoted literal.
pub fn lua_string(input: &str) -> (r: String)
    ensures
        r@ == quote(input@),
{
    let mut r = String::new();
    push_quoted(&mut r, input);
    assert(r@ =~= quote(input@));
    r
}

pub open spec fn bool_text(b: bool) -> Text {
    if b {
        "true"@
    } else {
        "false"@
    }
}

/// The literal of a boolean.
pub fn lua_bool(value: bool) -> (r: &'static str)
    ensures
        r@ == bool_text(value),
{
    if value {
        "true"
    } else {
        "false"
    }
}

pub open spec fn is_ascii_alpha(c: char) -> bool {
    ('a' <= c && c <= 'z') || ('A' <= c && c <= 'Z')
}

pub open spec fn is_ascii_digit(c: char) -> bool {
    '0' <= c && c <= '9'
}

/// An ASCII letter or underscore, then ASCII letters, digits or underscores.
pub open spec fn is_identifier(s: Text) -> bool {
    &&& s.len() > 0
    &&& (is_ascii_alpha(s[0]) || s[0] == '_')
    &&& forall|i: int|
        1 <= i < s.len() ==> is_ascii_alpha(#[trigger] s[i]) || is_ascii_digit(s[i]) || s[i] == '_'
}

/// How a table key is written: an identifier bare, anything else, spaces
/// included, as a bracketed quoted literal.
pub open spec fn key_text(key: Text) -> Text {
    if is_identifier(key) {
        key
    } else {
        seq!['['] + quote(key) + seq![']']
    }
}

fn identifier_chars(v: &Vec<char>, lo: usize, hi: usize) -> (r: bool)
    requires
        lo <= hi <= v.len(),
    ensures
        r == is_identifier(v@.subrange(lo as int, hi as int)),
{
    let ghost s = v@.subrange(lo as int, hi as int);
    if lo == hi {
        return false;
    }
    let c = v[lo];
    if !(('a' <= c && c <= 'z') || ('A' <= c && c <= 'Z') || c == '_') {
        return false;
    }
    let mut i = lo + 1;
    while i < hi
        invariant
            lo < i <= hi <= v.len(),
            s == v@.subrange(lo as int, hi as int),
            forall|k: int|
                1 <= k < i - lo ==> is_ascii_alpha(#[trigger] s[k]) || is_ascii_digit(s[k]) || s[k]
                    == '_',
        decreases hi - i,
    {
        let d = v[i];
        if !(('a' <= d && d <= 'z') || ('A' <= d && d <= 'Z') || ('0' <= d && d <= '9') || d
            == '_') {
            assert(s[i - lo] == d);
            return false;
        }
        i = i + 1;
    }
    true
}

/// Appends a table key as `key_text` writes it.
pub fn push_key(out: &mut String, key: &str)
    ensures
        final(out)@ == old(out)@ + key_text(key@),
{
    let ghost start = out@;
    let v = chars_vec(key);
    assert(v@.subrange(0, v.len() as int) =~= key@);
    if identifier_chars(&v, 0, v.len()) {
        push_str(out, key);
    } else {
        push_char(out, '[');
        push_quoted(out, key);
        push_char(out, ']');
    }
    assert(out@ =~= start + key_text(key@));
}

/// A table key, written as `key_text` describes it.
pub fn lua_key(key: &str) -> (r: String)
    ensures
        r@ == key_text(key@),
{
    let mut r = String::new();
    push_key(&mut r, key);
    assert(r@ =~= key_text(key@));
    r
}

} // verus!

verus! {

pub open spec fn keys_of(es: Seq<(String, Json)>) -> TextList {
    es.map_values(|e: (String, Json)| e.0@)
}

/// `x` placed after every position of `sorted` whose key is not greater.
pub open spec fn insert_index(keys: TextList, sorted: Seq<int>, x: int) -> Seq<int>
    decreases sorted.len(),
{
    if sorted.len() == 0 {
        seq![x]
    } else if text_le(key_at(keys, sorted.last()), key_at(keys, x)) {
        sorted.push(x)
    } else {
        insert_index(keys, sorted.drop_last(), x).push(sorted.last())
    }
}

pub open spec fn key_at(keys: TextList, i: int) -> Text {
    if 0 <= i < keys.len() {
        keys[i]
    } else {
        Seq::<char>::empty()
    }
}

pub open spec fn order_upto(keys: TextList, n: int) -> Seq<int>
    decreases n,
{
    if n <= 0 {
        seq![]
    } else {
        insert_index(keys, order_upto(keys, n - 1), n - 1)
    }
}

/// The positions of `keys` in ascending key order; equal keys keep their order.
pub open spec fn key_order(keys: TextList) -> Seq<int> {
    order_upto(keys, keys.len() as int)
}

/// The literal of a nested value.
pub open spec fn json_text(j: Json) -> Text
    decreases j,
{
    match j {
        Json::Null => "nil"@,
        Json::Bool(b) => bool_text(b),
        Json::Number(n) => n@,
        Json::Str(s) => quote(s@),
        Json::Array(v) => if v.len() == 0 {
            "{}"@
        } else {
            seq!['{', ' '] + array_items(v@, v.len() as int) + seq![' ', '}']
        },
        Json::Object(m) => if m.len() == 0 {
            "{}"@
        } else {
            seq!['{', ' '] + object_items(m@, key_order(keys_of(m@)), m.len() as int) + seq![' ', '}']
        },
    }
}

/// The first `n` items of `v`, separated by ", ".
pub open spec fn array_items(v: Seq<Json>, n: int) -> Text
    decreases v, n,
{
    if n <= 0 || n > v.len() {
        Seq::<char>::empty()
    } else if n == 1 {
        json_text(v[0])
    } else {
        array_items(v, n - 1) + seq![',', ' '] + json_text(v[n - 1])
    }
}

/// One field of an object, as `["key"] = value`.
pub open spec fn field_text(e: (String, Json)) -> Text
    decreases e,
{
    seq!['['] + quote(e.0@) + seq![']', ' ', '=', ' '] + json_text(e.1)
}

/// The fields of `es` at the positions `order[..n]`, separated by ", ".
pub open spec fn object_items(es: Seq<(String, Json)>, order: Seq<int>, n: int) -> Text
    decreases es, n,
{
    if n <= 0 || n > order.len() {
        Seq::<char>::empty()
    } else {
        let i = order[n - 1];
        let item = if 0 <= i < es.len() {
            field_text(es[i])
        } else {
            Seq::<char>::empty()
        };
        if n == 1 {
            item
        } else {
            object_items(es, order, n - 1) + seq![',', ' '] + item
        }
    }
}

} // verus!

verus! {

pub open spec fn char_views(v: Seq<Vec<char>>) -> TextList {
    v.map_values(|k: Vec<char>| k@)
}

pub open spec fn index_views(v: Seq<usize>) -> Seq<int> {
    v.map_values(|i: usize| i as int)
}

proof fn lemma_insert_index_at(keys: TextList, sorted: Seq<int>, x: int, j: int)
    requires
        0 <= j <= sorted.len(),
        forall|i: int| j <= i < sorted.len() ==> !text_le(key_at(keys, #[trigger] sorted[i]), key_at(keys, x)),
        j == 0 || text_le(key_at(keys, sorted[j - 1]), key_at(keys, x)),
    ensures
        insert_index(keys, sorted, x) == sorted.subrange(0, j).push(x) + sorted.subrange(j, sorted.len() as int),
    decreases sorted.len(),
{
    if sorted.len() == 0 {
        assert(seq![x] =~= Seq::<int>::empty().push(x) + Seq::<int>::empty());
    } else if j == sorted.len() {
        assert(sorted.subrange(0, j) =~= sorted);
        assert(sorted.push(x) + sorted.subrange(j, sorted.len() as int) =~= sorted.push(x));
    } else {
        assert(!text_le(key_at(keys, sorted[sorted.len() - 1]), key_at(keys, x)));
        let d = sorted.drop_last();
        lemma_insert_index_at(keys, d, x, j);
        assert(d.subrange(0, j) =~= sorted.subrange(0, j));
        assert((d.subrange(0, j).push(x) + d.subrange(j, d.len() as int)).push(sorted.last())
            =~= sorted.subrange(0, j).push(x) + sorted.subrange(j, sorted.len() as int));
    }
}

/// The positions of `keys` in ascending order, as `key_order` gives them.
pub fn order_of(keys: &Vec<Vec<char>>) -> (r: Vec<usize>)
    ensures
        index_views(r@) == key_order(char_views(keys@)),
        forall|m: int| 0 <= m < r.len() ==> r@[m] < keys.len(),
{
    let ghost kv = char_views(keys@);
    let mut out: Vec<usize> = Vec::new();
    let mut n: usize = 0;
    assert(index_views(out@) =~= Seq::<int>::empty());
    while n < keys.len()
        invariant
            kv == char_views(keys@),
            n <= keys.len(),
            index_views(out@) == order_upto(kv, n as int),
            forall|m: int| 0 <= m < out.len() ==> #[trigger] out@[m] < n,
        decreases keys.len() - n,
    {
        let mut j = out.len();
        while j > 0 && !text_le_exec(&keys[out[j - 1]], &keys[n])
            invariant
                j <= out.len(),
                n < keys.len(),
                kv == char_views(keys@),
                forall|m: int| 0 <= m < out.len() ==> #[trigger] out@[m] < n,
                forall|m: int| j <= m < out.len() ==> !text_le(kv[out@[m] as int], kv[n as int]),
            decreases j,
        {
            j = j - 1;
        }
        proof {
            let s = index_views(out@);
            assert forall|m: int| j <= m < s.len() implies !text_le(key_at(kv, #[trigger] s[m]), key_at(kv, n as int)) by {
                assert(s[m] == out@[m] as int);
            }
            if j > 0 {
                assert(s[j - 1] == out@[j - 1] as int);
            }
            lemma_insert_index_at(kv, s, n as int, j as int);
        }
        let ghost before = index_views(out@);
        let ghost out0 = out@;
        out.insert(j, n);
        assert(index_views(out@) =~= before.subrange(0, j as int).push(n as int) + before.subrange(j as int, before.len() as int));
        assert forall|m: int| 0 <= m < out.len() implies #[trigger] out@[m] < n + 1 by {
            if m < j {
                assert(out@[m] == out0[m]);
            } else if m > j {
                assert(out@[m] == out0[m - 1]);
            }
        }
        n = n + 1;
    }
    out
}

/// Appends the literal of a nested value.
#[verifier::loop_isolation(false)]
pub fn push_json(out: &mut String, j: &Json)
    ensures
        final(out)@ == old(out)@ + json_text(*j),
    decreases j,
{
    let ghost start = out@;
    match j {
        Json::Null => push_str(out, "nil"),
        Json::Bool(b) => push_str(out, lua_bool(*b)),
        Json::Number(n) => push_str(out, n.as_str()),
        Json::Str(s) => push_quoted(out, s.as_str()),
        Json::Array(v) => {
            if v.len() == 0 {
                push_str(out, "{}");
            } else {
                push_char(out, '{');
                push_char(out, ' ');
                let ghost base = out@;
                let mut i: usize = 0;
                assert(base + array_items(v@, 0) =~= base);
                while i < v.len()
                    invariant
                        i <= v.len(),
                        out@ == base + array_items(v@, i as int),
                    decreases v.len() - i,
                {
                    if i > 0 {
                        push_char(out, ',');
                        push_char(out, ' ');
                    }
                    proof {
                        assert(decreases_to!(*v => v[i as int]));
                    }
                    push_json(out, &v[i]);
                    assert(out@ =~= base + array_items(v@, i + 1));
                    i = i + 1;
                }
                push_char(out, ' ');
                push_char(out, '}');
                assert(out@ =~= start + json_text(*j));
            }
        },
        Json::Object(m) => {
            push_object(out, m);
            assert(out@ =~= start + json_text(*j));
        },
    }
}

pub proof fn lemma_order_len(keys: TextList, n: int)
    requires
        n >= 0,
    ensures
        order_upto(keys, n).len() == n,
    decreases n,
{
    if n > 0 {
        lemma_order_len(keys, n - 1);
        lemma_insert_len(keys, order_upto(keys, n - 1), n - 1);
    }
}

proof fn lemma_insert_len(keys: TextList, sorted: Seq<int>, x: int)
    ensures
        insert_index(keys, sorted, x).len() == sorted.len() + 1,
    decreases sorted.len(),
{
    if sorted.len() > 0 {
        lemma_insert_len(keys, sorted.drop_last(), x);
    }
}

/// The characters of each key of an object.
fn object_keys(m: &Vec<(String, Json)>) -> (keys: Vec<Vec<char>>)
    ensures
        char_views(keys@) == keys_of(m@),
{
    let mut keys: Vec<Vec<char>> = Vec::new();
    let mut k: usize = 0;
    while k < m.len()
        invariant
            k <= m.len(),
            keys.len() == k,
            forall|x: int| 0 <= x < k ==> (#[trigger] keys@[x])@ == m@[x].0@,
        decreases m.len() - k,
    {
        keys.push(chars_vec(m[k].0.as_str()));
        k = k + 1;
    }
    assert(char_views(keys@) =~= keys_of(m@));
    keys
}

/// Appends the literal of an object, its fields in ascending key order.
#[verifier::loop_isolation(false)]
#[verifier::rlimit(40)]
pub fn push_object(out: &mut String, m: &Vec<(String, Json)>)
    ensures
        final(out)@ == old(out)@ + json_text(Json::Object(*m)),
    decreases m,
{
    let ghost start = out@;
    if m.len() == 0 {
        push_str(out, "{}");
    } else {
        let keys = object_keys(m);
        let order = order_of(&keys);
        proof {
            lemma_order_len(keys_of(m@), m.len() as int);
        }
        push_char(out, '{');
        push_char(out, ' ');
        let ghost base = out@;
        let ghost ord = key_order(keys_of(m@));
        let mut t: usize = 0;
        assert(base + object_items(m@, ord, 0) =~= base);
        while t < order.len()
            invariant
                t <= order.len(),
                index_views(order@) == ord,
                forall|x: int| 0 <= x < order.len() ==> order@[x] < m.len(),
                out@ == base + object_items(m@, ord, t as int),
            decreases order.len() - t,
        {
            if t > 0 {
                push_char(out, ',');
                push_char(out, ' ');
            }
            let ghost before_item = out@;
            let e = &m[order[t]];
            assert(ord[t as int] == order@[t as int] as int);
            assert(m@[ord[t as int]] == *e);
            push_char(out, '[');
            push_quoted(out, e.0.as_str());
            push_char(out, ']');
            push_char(out, ' ');
            push_char(out, '=');
            push_char(out, ' ');
            proof {
                assert(decreases_to!(*m => m[order@[t as int] as int]));
            }
            push_json(out, &e.1);
            assert(out@ =~= before_item + field_text(*e));
            assert(object_items(m@, ord, t + 1) == if t == 0 {
                field_text(*e)
            } else {
                object_items(m@, ord, t as int) + seq![',', ' '] + field_text(*e)
            });
            assert(out@ =~= base + object_items(m@, ord, t + 1));
            t = t + 1;
        }
        push_char(out, ' ');
        push_char(out, '}');
        assert(out@ =~= start + json_text(Json::Object(*m)));
    }
}

} // verus!

verus! {

/// The literal of a nested value.
pub fn lua_json(value: &Json) -> (r: String)
    ensures
        r@ == json_text(*value),
{
    let mut r = String::new();
    push_json(&mut r, value);
    assert(r@ =~= json_text(*value));
    r
}

/// The first `n` items of `vals`, each quoted, separated by ", ".
pub open spec fn quoted_items(vals: TextList, n: int) -> Text
    decreases n,
{
    if n <= 0 || n > vals.len() {
        Seq::<char>::empty()
    } else if n == 1 {
        quote(vals[0])
    } else {
        quoted_items(vals, n - 1) + seq![',', ' '] + quote(vals[n - 1])
    }
}

/// The literal of a list of texts.
pub open spec fn list_text(vals: TextList) -> Text {
    if vals.len() == 0 {
        "{}"@
    } else {
        seq!['{', ' '] + quoted_items(vals, vals.len() as int) + seq![' ', '}']
    }
}

pub fn push_string_list(out: &mut String, values: &Vec<String>)
    ensures
        final(out)@ == old(out)@ + list_text(values.deep_view()),
{
    let ghost start = out@;
    let ghost vals = values.deep_view();
    if values.len() == 0 {
        push_str(out, "{}");
        return ;
    }
    push_char(out, '{');
    push_char(out, ' ');
    let ghost base = out@;
    let mut i: usize = 0;
    assert(base + quoted_items(vals, 0) =~= base);
    while i < values.len()
        invariant
            vals == values.deep_view(),
            i <= values.len(),
            out@ == base + quoted_items(vals, i as int),
        decreases values.len() - i,
    {
        if i > 0 {
            push_char(out, ',');
            push_char(out, ' ');
        }
        push_quoted(out, values[i].as_str());
        assert(vals[i as int] == values[i as int]@);
        assert(out@ =~= base + quoted_items(vals, i + 1));
        i = i + 1;
    }
    push_char(out, ' ');
    push_char(out, '}');
    assert(out@ =~= start + list_text(vals));
}

/// The literal of a list of texts.
pub fn lua_string_list(values: &Vec<String>) -> (r: String)
    ensures
        r@ == list_text(values.deep_view()),
{
    let mut r = String::new();
    push_string_list(&mut r, values);
    assert(r@ =~= list_text(values.deep_view()));
    r
}

/// One requester as a table: its trimmed id and name where not empty; none
/// where both are empty.
pub open spec fn requester_text(r: RequiredByView) -> Option<Text> {
    let id = trim(r.mod_id);
    let name = trim(r.name);
    let id_part = "modId = "@ + quote(id);
    let name_part = "name = "@ + quote(name);
    if id.len() > 0 && name.len() > 0 {
        Some(seq!['{', ' '] + id_part + seq![',', ' '] + name_part + seq![' ', '}'])
    } else if id.len() > 0 {
        Some(seq!['{', ' '] + id_part + seq![' ', '}'])
    } else if name.len() > 0 {
        Some(seq!['{', ' '] + name_part + seq![' ', '}'])
    } else {
        None
    }
}

/// The tables of the first `n` requesters that have one, separated by ", ".
pub open spec fn requester_items(rs: Seq<RequiredByView>, n: int) -> Text
    decreases n,
{
    if n <= 0 || n > rs.len() {
        Seq::<char>::empty()
    } else {
        let prev = requester_items(rs, n - 1);
        match requester_text(rs[n - 1]) {
            None => prev,
            Some(x) => if prev.len() == 0 {
                x
            } else {
                prev + seq![',', ' '] + x
            },
        }
    }
}

/// The literal of a required-by list.
pub open spec fn required_by_text(rs: Seq<RequiredByView>) -> Text {
    if rs.len() == 0 {
        "{}"@
    } else {
        seq!['{', ' '] + requester_items(rs, rs.len() as int) + seq![' ', '}']
    }
}

fn requester(r: &RequiredByInfo) -> (t: Option<String>)
    ensures
        t.deep_view() == requester_text(r@),
{
    let id = trim_string(r.mod_id.as_str());
    let name = trim_string(r.name.as_str());
    let has_id = id.unicode_len() > 0;
    let has_name = name.unicode_len() > 0;
    if !has_id && !has_name {
        return None;
    }
    let mut s = String::new();
    push_char(&mut s, '{');
    push_char(&mut s, ' ');
    if has_id {
        push_str(&mut s, "modId = ");
        push_quoted(&mut s, id.as_str());
    }
    if has_id && has_name {
        push_char(&mut s, ',');
        push_char(&mut s, ' ');
    }
    if has_name {
        push_str(&mut s, "name = ");
        push_quoted(&mut s, name.as_str());
    }
    push_char(&mut s, ' ');
    push_char(&mut s, '}');
    assert(s@ =~= requester_text(r@).unwrap());
    Some(s)
}

spec fn rb_views(p: Seq<RequiredByInfo>) -> Seq<RequiredByView> {
    p.map_values(|r: RequiredByInfo| r@)
}

pub fn push_required_by_list(out: &mut String, values: &Vec<RequiredByInfo>)
    ensures
        final(out)@ == old(out)@ + required_by_text(values@.map_values(|r: RequiredByInfo| r@)),
{
    let ghost start = out@;
    let ghost rs = rb_views(values@);
    if values.len() == 0 {
        push_str(out, "{}");
        return ;
    }
    push_char(out, '{');
    push_char(out, ' ');
    let ghost base = out@;
    let mut any = false;
    let mut i: usize = 0;
    assert(base + requester_items(rs, 0) =~= base);
    while i < values.len()
        invariant
            rs == rb_views(values@),
            i <= values.len(),
            out@ == base + requester_items(rs, i as int),
            any == (requester_items(rs, i as int).len() > 0),
        decreases values.len() - i,
    {
        assert(rs[i as int] == values[i as int]@);
        match requester(&values[i]) {
            Some(x) => {
                if any {
                    push_char(out, ',');
                    push_char(out, ' ');
                }
                push_str(out, x.as_str());
                any = true;
            },
            None => {},
        }
        assert(out@ =~= base + requester_items(rs, i + 1));
        i = i + 1;
    }
    push_char(out, ' ');
    push_char(out, '}');
    assert(out@ =~= start + required_by_text(rs));
}

/// The literal of a required-by list.
pub fn lua_required_by_list(values: &Vec<RequiredByInfo>) -> (r: String)
    ensures
        r@ == required_by_text(values@.map_values(|r: RequiredByInfo| r@)),
{
    let mut r = String::new();
    push_required_by_list(&mut r, values);
    assert(r@ =~= required_by_text(values@.map_values(|r: RequiredByInfo| r@)));
    r
}

} // verus!
