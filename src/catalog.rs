use vstd::prelude::*;

use crate::enrich::{
    allowed_fields, creator_name, creator_name_of, denied_key, workshop_key_for_mod,
    workshop_key_of,
};
use crate::lua::{
    bool_text, char_views, index_views, json_text, key_order, key_text, keys_of, list_text,
    lua_bool, order_of, push_json, push_key, push_quoted, push_required_by_list,
    push_string_list, quote, required_by_text,
};
use crate::model::{Json, ModSummary, ModSummaryView, Text, TextList};
use crate::text::{chars_vec, owned, push_char, push_str, trim, trim_string};

verus! {

/// What chrono's RFC 3339 parser gives for a text: the date-time's seconds
/// since the Unix epoch, or none where the text is not an RFC 3339 date-time.
pub uninterp spec fn rfc3339_seconds(s: Seq<char>) -> Option<i64>;

/// Relies on `chrono::DateTime::parse_from_rfc3339` and `DateTime::timestamp`:
/// the result depends on the text alone.
#[verifier::external_body]
fn rfc3339_epoch_seconds(s: &str) -> (r: Option<i64>)
    ensures
        r == rfc3339_seconds(s@),
{
    match chrono::DateTime::parse_from_rfc3339(s) {
        Ok(d) => Some(d.timestamp()),
        Err(_) => None,
    }
}

pub open spec fn digit_char(d: int) -> char {
    if d == 0 {
        '0'
    } else if d == 1 {
        '1'
    } else if d == 2 {
        '2'
    } else if d == 3 {
        '3'
    } else if d == 4 {
        '4'
    } else if d == 5 {
        '5'
    } else if d == 6 {
        '6'
    } else if d == 7 {
        '7'
    } else if d == 8 {
        '8'
    } else {
        '9'
    }
}

/// The decimal digits of a natural number.
pub open spec fn nat_text(n: nat) -> Text
    decreases n,
{
    if n < 10 {
        seq![digit_char(n as int)]
    } else {
        nat_text(n / 10).push(digit_char((n % 10) as int))
    }
}

/// The decimal literal of an integer.
pub open spec fn int_text(n: int) -> Text {
    if n < 0 {
        seq!['-'] + nat_text((-n) as nat)
    } else {
        nat_text(n as nat)
    }
}

fn digit(d: u64) -> (c: char)
    requires
        d < 10,
    ensures
        c == digit_char(d as int),
{
    if d == 0 {
        '0'
    } else if d == 1 {
        '1'
    } else if d == 2 {
        '2'
    } else if d == 3 {
        '3'
    } else if d == 4 {
        '4'
    } else if d == 5 {
        '5'
    } else if d == 6 {
        '6'
    } else if d == 7 {
        '7'
    } else if d == 8 {
        '8'
    } else {
        '9'
    }
}

fn push_nat(out: &mut String, n: u64)
    ensures
        final(out)@ == old(out)@ + nat_text(n as nat),
    decreases n,
{
    let ghost start = out@;
    if n >= 10 {
        push_nat(out, n / 10);
    }
    push_char(out, digit(n % 10));
    assert(out@ =~= start + nat_text(n as nat));
}

/// Appends the decimal literal of an integer.
pub fn push_int(out: &mut String, n: i64)
    ensures
        final(out)@ == old(out)@ + int_text(n as int),
{
    let ghost start = out@;
    if n < 0 {
        push_char(out, '-');
        let m: u64 = (-(n as i128)) as u64;
        push_nat(out, m);
    } else {
        push_nat(out, n as u64);
    }
    assert(out@ =~= start + int_text(n as int));
}

/// `p` occurs in `s`.
pub open spec fn contains_text(s: Text, p: Text) -> bool {
    exists|i: int| 0 <= i && i + p.len() <= s.len() && #[trigger] s.subrange(i, i + p.len()) == p
}

fn contains_chars(s: &Vec<char>, p: &Vec<char>) -> (r: bool)
    ensures
        r == contains_text(s@, p@),
{
    if p.len() > s.len() {
        return false;
    }
    let mut i: usize = 0;
    while i <= s.len() - p.len()
        invariant
            p.len() <= s.len(),
            i <= s.len() - p.len() + 1,
            forall|x: int| 0 <= x < i ==> #[trigger] s@.subrange(x, x + p.len()) != p@,
        decreases s.len() - i,
    {
        let mut k: usize = 0;
        while k < p.len() && s[i + k] == p[k]
            invariant
                i + p.len() <= s.len(),
                k <= p.len(),
                forall|y: int| 0 <= y < k ==> s@[i + y] == p@[y],
            decreases p.len() - k,
        {
            k = k + 1;
        }
        if k == p.len() {
            assert(s@.subrange(i as int, i + p.len()) =~= p@);
            return true;
        }
        assert(s@.subrange(i as int, i + p.len())[k as int] != p@[k as int]);
        i = i + 1;
    }
    assert(!contains_text(s@, p@)) by {
        if contains_text(s@, p@) {
            let x = choose|x: int| 0 <= x && x + p@.len() <= s@.len() && #[trigger] s@.subrange(x, x + p@.len()) == p@;
            assert(x < i);
        }
    }
    false
}

/// A link to a creator's page always carries the application query.
pub open spec fn with_app_query(t: Text) -> Text {
    if contains_text(t, "appid=108600"@) {
        t
    } else {
        t + "?appid=108600"@
    }
}

/// One field line of an entry.
pub open spec fn line(name: Text, value: Text) -> Text {
    "      "@ + name + " = "@ + value + ",\n"@
}

fn push_line_start(out: &mut String, name: &str)
    ensures
        final(out)@ == old(out)@ + "      "@ + name@ + " = "@,
{
    push_str(out, "      ");
    push_str(out, name);
    push_str(out, " = ");
}

fn push_line_end(out: &mut String)
    ensures
        final(out)@ == old(out)@ + ",\n"@,
{
    push_str(out, ",\n");
}

/// A trimmed text, where there is one and it is not blank.
pub open spec fn present(v: Option<Text>) -> Option<Text> {
    match v {
        Some(x) => if trim(x).len() > 0 {
            Some(trim(x))
        } else {
            None
        },
        None => None,
    }
}

pub open spec fn text_line(name: Text, v: Option<Text>) -> Text {
    match present(v) {
        Some(x) => line(name, quote(x)),
        None => Seq::<char>::empty(),
    }
}

pub open spec fn list_line(name: Text, v: Option<TextList>) -> Text {
    match v {
        Some(l) => if l.len() > 0 {
            line(name, list_text(l))
        } else {
            Seq::<char>::empty()
        },
        None => Seq::<char>::empty(),
    }
}

/// The id written for an entry: its trimmed id, or its identity where it has
/// none, with a leading backslash, then `::` and the workshop id where known.
pub open spec fn composite_id(m: ModSummaryView) -> Text {
    let mid = match m.mod_id {
        Some(x) => trim(x),
        None => Seq::<char>::empty(),
    };
    let idv = if mid.len() == 0 {
        m.id
    } else {
        mid
    };
    let esc = if idv.len() > 0 && idv[0] == '\\' {
        idv
    } else {
        seq!['\\'] + idv
    };
    match workshop_key_of(m) {
        Some(w) => if w.len() > 0 {
            esc + "::"@ + w
        } else {
            esc
        },
        None => esc,
    }
}

pub open spec fn author_line(m: ModSummaryView) -> Text {
    let a = match present(m.author) {
        Some(x) => Some(x),
        None => creator_name_of(m),
    };
    match a {
        Some(x) => line("author"@, quote(x)),
        None => Seq::<char>::empty(),
    }
}

pub open spec fn install_line(m: ModSummaryView) -> Text {
    match present(m.install_date) {
        Some(x) => match rfc3339_seconds(x) {
            Some(t) => line("install_date"@, int_text(t as int)),
            None => Seq::<char>::empty(),
        },
        None => Seq::<char>::empty(),
    }
}

pub open spec fn required_by_line(m: ModSummaryView) -> Text {
    match m.required_by {
        Some(l) => if l.len() > 0 {
            line("required_by"@, required_by_text(l))
        } else {
            Seq::<char>::empty()
        },
        None => Seq::<char>::empty(),
    }
}

/// One metadata field as a line; a non-blank creator link gets the
/// application query.
pub open spec fn meta_line(e: (String, Json)) -> Text {
    match e.1 {
        Json::Str(u) => if e.0@ == "creator_url"@ && trim(u@).len() > 0 {
            line(key_text(e.0@), quote(with_app_query(trim(u@))))
        } else {
            line(key_text(e.0@), json_text(e.1))
        },
        _ => line(key_text(e.0@), json_text(e.1)),
    }
}

/// The lines of the fields of `fs` at the positions `order[..n]`.
pub open spec fn meta_lines(fs: Seq<(String, Json)>, order: Seq<int>, n: int) -> Text
    decreases n,
{
    if n <= 0 || n > order.len() {
        Seq::<char>::empty()
    } else {
        let i = order[n - 1];
        meta_lines(fs, order, n - 1) + if 0 <= i < fs.len() {
            meta_line(fs[i])
        } else {
            Seq::<char>::empty()
        }
    }
}

/// The lines of an entry's metadata: the allowed fields of its object, in
/// ascending key order.
pub open spec fn meta_block(m: ModSummaryView) -> Text {
    match m.workshop {
        Some(Json::Object(o)) => {
            let fs = allowed_fields(o@);
            let order = key_order(keys_of(fs));
            meta_lines(fs, order, order.len() as int)
        },
        _ => Seq::<char>::empty(),
    }
}

/// The id, workshop id, author and flag lines of an entry.
pub open spec fn entry_head(m: ModSummaryView) -> Text {
    line("id"@, quote(composite_id(m))) + line(
        "workshop_id"@,
        quote(
            match workshop_key_of(m) {
                Some(w) => w,
                None => Seq::<char>::empty(),
            },
        ),
    ) + author_line(m) + line(
        "hidden"@,
        bool_text(
            match m.hidden {
                Some(b) => b,
                None => false,
            },
        ),
    ) + line(
        "favorite"@,
        bool_text(
            match m.favorite {
                Some(b) => b,
                None => false,
            },
        ),
    )
}

/// The version, install date and url lines of an entry.
pub open spec fn entry_scalars(m: ModSummaryView) -> Text {
    text_line("version"@, m.version) + text_line("version_min"@, m.version_min) + text_line(
        "version_max"@,
        m.version_max,
    ) + install_line(m) + text_line("url"@, m.url)
}

/// The reference-list lines of an entry.
pub open spec fn entry_lists(m: ModSummaryView) -> Text {
    list_line("requires"@, m.requires) + list_line("dependencies"@, m.dependencies) + list_line(
        "load_after"@,
        m.load_after,
    ) + list_line("load_before"@, m.load_before) + list_line("incompatible"@, m.incompatible)
        + list_line("packs"@, m.packs) + list_line("tiledefs"@, m.tiledefs) + list_line(
        "soundbanks"@,
        m.soundbanks,
    )
}

/// The world map, preview, required-by and metadata lines of an entry.
pub open spec fn entry_tail(m: ModSummaryView) -> Text {
    text_line("worldmap"@, m.worldmap) + text_line("preview_image_path"@, m.preview_image_path)
        + required_by_line(m) + meta_block(m)
}

/// The block of one entry, its fields in a fixed order; absent or blank
/// fields are left out.
pub open spec fn entry_block(m: ModSummaryView) -> Text {
    "    {\n"@ + entry_head(m) + entry_scalars(m) + entry_lists(m) + entry_tail(m) + "    },\n"@
}

/// The blocks of the first `n` entries.
pub open spec fn entry_blocks(ms: Seq<ModSummaryView>, n: int) -> Text
    decreases n,
{
    if n <= 0 || n > ms.len() {
        Seq::<char>::empty()
    } else {
        entry_blocks(ms, n - 1) + entry_block(ms[n - 1])
    }
}

/// The whole document: every entry under the top-level `mods` table.
pub open spec fn catalog_text(ms: Seq<ModSummaryView>) -> Text {
    "return {\n  mods = {\n"@ + entry_blocks(ms, ms.len() as int) + "  }\n}"@
}

} // verus!

verus! {

fn push_text_line(out: &mut String, name: &str, v: &Option<String>)
    ensures
        final(out)@ == old(out)@ + text_line(name@, v.deep_view()),
{
    let ghost start = out@;
    match v {
        Some(x) => {
            let t = trim_string(x.as_str());
            if t.unicode_len() > 0 {
                push_line_start(out, name);
                push_quoted(out, t.as_str());
                push_line_end(out);
            }
        },
        None => {},
    }
    assert(out@ =~= start + text_line(name@, v.deep_view()));
}

fn push_list_line(out: &mut String, name: &str, v: &Option<Vec<String>>)
    ensures
        final(out)@ == old(out)@ + list_line(name@, v.deep_view()),
{
    let ghost start = out@;
    match v {
        Some(l) => {
            if l.len() > 0 {
                push_line_start(out, name);
                push_string_list(out, l);
                push_line_end(out);
            }
        },
        None => {},
    }
    assert(out@ =~= start + list_line(name@, v.deep_view()));
}

fn push_author_line(out: &mut String, m: &ModSummary)
    ensures
        final(out)@ == old(out)@ + author_line(m@),
{
    let ghost start = out@;
    let own = match &m.author {
        Some(x) => {
            let t = trim_string(x.as_str());
            if t.unicode_len() > 0 {
                Some(t)
            } else {
                None
            }
        },
        None => None,
    };
    assert(own.deep_view() == present(m@.author));
    let a = match own {
        Some(x) => Some(x),
        None => creator_name(m),
    };
    match a {
        Some(x) => {
            push_line_start(out, "author");
            push_quoted(out, x.as_str());
            push_line_end(out);
        },
        None => {},
    }
    assert(out@ =~= start + author_line(m@));
}

fn push_install_line(out: &mut String, m: &ModSummary)
    ensures
        final(out)@ == old(out)@ + install_line(m@),
{
    let ghost start = out@;
    match &m.install_date {
        Some(x) => {
            let t = trim_string(x.as_str());
            if t.unicode_len() > 0 {
                match rfc3339_epoch_seconds(t.as_str()) {
                    Some(secs) => {
                        push_line_start(out, "install_date");
                        push_int(out, secs);
                        push_line_end(out);
                    },
                    None => {},
                }
            }
        },
        None => {},
    }
    assert(out@ =~= start + install_line(m@));
}

fn push_required_by_line(out: &mut String, m: &ModSummary)
    ensures
        final(out)@ == old(out)@ + required_by_line(m@),
{
    let ghost start = out@;
    match &m.required_by {
        Some(l) => {
            if l.len() > 0 {
                push_line_start(out, "required_by");
                push_required_by_list(out, l);
                push_line_end(out);
            }
        },
        None => {},
    }
    assert(out@ =~= start + required_by_line(m@));
}

/// The id written for an entry, as `composite_id` describes it.
pub fn composite_id_of(m: &ModSummary) -> (r: String)
    ensures
        r@ == composite_id(m@),
{
    let mid = match &m.mod_id {
        Some(x) => trim_string(x.as_str()),
        None => String::new(),
    };
    let idv = if mid.unicode_len() == 0 {
        m.id.clone()
    } else {
        mid
    };
    let mut r = String::new();
    if !(idv.unicode_len() > 0 && idv.as_str().get_char(0) == '\\') {
        push_char(&mut r, '\\');
    }
    push_str(&mut r, idv.as_str());
    match workshop_key_for_mod(m) {
        Some(w) => {
            if w.unicode_len() > 0 {
                push_str(&mut r, "::");
                push_str(&mut r, w.as_str());
            }
        },
        None => {},
    }
    proof {
        if m.mod_id is None {
            assert(trim(Seq::<char>::empty()) =~= Seq::<char>::empty());
        }
    }
    assert(r@ =~= composite_id(m@));
    r
}

fn push_meta_line(out: &mut String, e: &(String, Json))
    ensures
        final(out)@ == old(out)@ + meta_line(*e),
{
    let ghost start = out@;
    push_str(out, "      ");
    push_key(out, e.0.as_str());
    push_str(out, " = ");
    let mut done = false;
    match &e.1 {
        Json::Str(u) => {
            if crate::descriptor::text_eq(e.0.as_str(), "creator_url") {
                let t = trim_string(u.as_str());
                if t.unicode_len() > 0 {
                    let found = contains_chars(&chars_vec(t.as_str()), &chars_vec("appid=108600"));
                    let mut v = owned(t.as_str());
                    if !found {
                        push_str(&mut v, "?appid=108600");
                    }
                    assert(v@ == with_app_query(trim(u@)));
                    push_quoted(out, v.as_str());
                    done = true;
                }
            }
        },
        _ => {},
    }
    if !done {
        push_json(out, &e.1);
    }
    push_line_end(out);
    assert(out@ =~= start + meta_line(*e));
}

pub open spec fn at_positions(o: Seq<(String, Json)>, pos: Seq<usize>) -> Seq<(String, Json)> {
    pos.map_values(|p: usize| o[p as int])
}

fn allowed_positions(o: &Vec<(String, Json)>) -> (pos: Vec<usize>)
    ensures
        at_positions(o@, pos@) == allowed_fields(o@),
        forall|x: int| 0 <= x < pos.len() ==> pos@[x] < o.len(),
{
    let mut pos: Vec<usize> = Vec::new();
    let mut i: usize = 0;
    assert(at_positions(o@, pos@) =~= allowed_fields(o@.subrange(0, 0)));
    while i < o.len()
        invariant
            i <= o.len(),
            at_positions(o@, pos@) == allowed_fields(o@.subrange(0, i as int)),
            forall|x: int| 0 <= x < pos.len() ==> pos@[x] < i,
        decreases o.len() - i,
    {
        let ghost pre = o@.subrange(0, i + 1);
        assert(pre.drop_last() =~= o@.subrange(0, i as int));
        assert(pre.last() == o@[i as int]);
        if !denied_key(o[i].0.as_str()) {
            let ghost before = at_positions(o@, pos@);
            pos.push(i);
            assert(at_positions(o@, pos@) =~= before.push(o@[i as int]));
        }
        i = i + 1;
    }
    assert(o@.subrange(0, o.len() as int) =~= o@);
    pos
}

#[verifier::loop_isolation(false)]
fn push_meta_block(out: &mut String, m: &ModSummary)
    ensures
        final(out)@ == old(out)@ + meta_block(m@),
{
    let ghost start = out@;
    match &m.workshop {
        Some(Json::Object(o)) => {
            let pos = allowed_positions(o);
            let ghost fs = allowed_fields(o@);
            let mut keys: Vec<Vec<char>> = Vec::new();
            let mut k: usize = 0;
            while k < pos.len()
                invariant
                    k <= pos.len(),
                    keys.len() == k,
                    forall|x: int| 0 <= x < k ==> (#[trigger] keys@[x])@ == fs[x].0@,
                decreases pos.len() - k,
            {
                assert(fs[k as int] == o@[pos@[k as int] as int]);
                keys.push(chars_vec(o[pos[k]].0.as_str()));
                k = k + 1;
            }
            assert(char_views(keys@) =~= keys_of(fs));
            let order = order_of(&keys);
            let ghost ord = key_order(keys_of(fs));
            proof {
                crate::lua::lemma_order_len(keys_of(fs), fs.len() as int);
            }
            let mut t: usize = 0;
            assert(start + meta_lines(fs, ord, 0) =~= start);
            while t < order.len()
                invariant
                    t <= order.len(),
                    index_views(order@) == ord,
                    out@ == start + meta_lines(fs, ord, t as int),
                decreases order.len() - t,
            {
                let p = pos[order[t]];
                assert(ord[t as int] == order@[t as int] as int);
                assert(fs[ord[t as int]] == o@[p as int]);
                push_meta_line(out, &o[p]);
                assert(out@ =~= start + meta_lines(fs, ord, t + 1));
                t = t + 1;
            }
        },
        _ => {},
    }
    assert(out@ =~= start + meta_block(m@));
}

} // verus!

verus! {

fn push_quoted_line(out: &mut String, name: &str, value: &str)
    ensures
        final(out)@ == old(out)@ + line(name@, quote(value@)),
{
    let ghost start = out@;
    push_line_start(out, name);
    push_quoted(out, value);
    push_line_end(out);
    assert(out@ =~= start + line(name@, quote(value@)));
}

fn push_flag_line(out: &mut String, name: &str, flag: Option<bool>)
    ensures
        final(out)@ == old(out)@ + line(
            name@,
            bool_text(
                match flag {
                    Some(b) => b,
                    None => false,
                },
            ),
        ),
{
    let ghost start = out@;
    let b = match flag {
        Some(b) => b,
        None => false,
    };
    push_line_start(out, name);
    push_str(out, lua_bool(b));
    push_line_end(out);
    assert(out@ =~= start + line(name@, bool_text(b)));
}

fn push_entry_head(out: &mut String, m: &ModSummary)
    ensures
        final(out)@ == old(out)@ + entry_head(m@),
{
    let ghost start = out@;
    let id = composite_id_of(m);
    push_quoted_line(out, "id", id.as_str());
    let ws = match workshop_key_for_mod(m) {
        Some(w) => w,
        None => String::new(),
    };
    push_quoted_line(out, "workshop_id", ws.as_str());
    push_author_line(out, m);
    push_flag_line(out, "hidden", m.hidden);
    push_flag_line(out, "favorite", m.favorite);
    assert(out@ =~= start + entry_head(m@));
}

fn push_entry_scalars(out: &mut String, m: &ModSummary)
    ensures
        final(out)@ == old(out)@ + entry_scalars(m@),
{
    let ghost start = out@;
    push_text_line(out, "version", &m.version);
    push_text_line(out, "version_min", &m.version_min);
    push_text_line(out, "version_max", &m.version_max);
    push_install_line(out, m);
    push_text_line(out, "url", &m.url);
    assert(out@ =~= start + entry_scalars(m@));
}

fn push_entry_lists(out: &mut String, m: &ModSummary)
    ensures
        final(out)@ == old(out)@ + entry_lists(m@),
{
    let ghost start = out@;
    push_list_line(out, "requires", &m.requires);
    push_list_line(out, "dependencies", &m.dependencies);
    push_list_line(out, "load_after", &m.load_after);
    push_list_line(out, "load_before", &m.load_before);
    push_list_line(out, "incompatible", &m.incompatible);
    push_list_line(out, "packs", &m.packs);
    push_list_line(out, "tiledefs", &m.tiledefs);
    push_list_line(out, "soundbanks", &m.soundbanks);
    assert(out@ =~= start + entry_lists(m@));
}

fn push_entry_tail(out: &mut String, m: &ModSummary)
    ensures
        final(out)@ == old(out)@ + entry_tail(m@),
{
    let ghost start = out@;
    push_text_line(out, "worldmap", &m.worldmap);
    push_text_line(out, "preview_image_path", &m.preview_image_path);
    push_required_by_line(out, m);
    push_meta_block(out, m);
    assert(out@ =~= start + entry_tail(m@));
}

fn push_entry_block(out: &mut String, m: &ModSummary)
    ensures
        final(out)@ == old(out)@ + entry_block(m@),
{
    let ghost start = out@;
    push_str(out, "    {\n");
    push_entry_head(out, m);
    push_entry_scalars(out, m);
    push_entry_lists(out, m);
    push_entry_tail(out, m);
    push_str(out, "    },\n");
    assert(out@ =~= start + entry_block(m@));
}

/// The whole document for a catalog, as `catalog_text` describes it.
pub fn render_catalog(mods: &Vec<ModSummary>) -> (r: String)
    ensures
        r@ == catalog_text(crate::merge::views(mods@)),
{
    let ghost ms = crate::merge::views(mods@);
    let mut out = String::new();
    push_str(&mut out, "return {\n  mods = {\n");
    let ghost base = out@;
    let mut i: usize = 0;
    assert(base + entry_blocks(ms, 0) =~= base);
    while i < mods.len()
        invariant
            ms == crate::merge::views(mods@),
            i <= mods.len(),
            out@ == base + entry_blocks(ms, i as int),
        decreases mods.len() - i,
    {
        push_entry_block(&mut out, &mods[i]);
        assert(ms[i as int] == mods@[i as int]@);
        assert(out@ =~= base + entry_blocks(ms, i + 1));
        i = i + 1;
    }
    push_str(&mut out, "  }\n}");
    assert(out@ =~= catalog_text(ms));
    out
}

/// Rendering is a function of the catalog: two renderings of equal catalogs
/// are the same text, character for character.
pub proof fn lemma_render_deterministic(a: Seq<ModSummaryView>, b: Seq<ModSummaryView>)
    requires
        a == b,
    ensures
        catalog_text(a) == catalog_text(b),
{
}

} // verus!
