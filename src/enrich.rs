use vstd::prelude::*;

use crate::model::{distinct_keys, Json, ModSummary, ModSummaryView, Text};
use crate::text::{eq_ignore_ascii_case, same_ignoring_ascii_case, trim, trim_string};

verus! {

/// Keys of attached metadata that are never written out: identity of the
/// author, descriptions, moderation and visibility state, preview links, tag
/// lists and raw counters. Compared up to ASCII case.
pub open spec fn is_denied_key(k: Text) -> bool {
    eq_ignore_ascii_case(k, "description"@)
        || eq_ignore_ascii_case(k, "file_description"@)
        || eq_ignore_ascii_case(k, "short_description"@)
        || eq_ignore_ascii_case(k, "app_name"@)
        || eq_ignore_ascii_case(k, "appid"@)
        || eq_ignore_ascii_case(k, "author"@)
        || eq_ignore_ascii_case(k, "maybe_inappropriate_violence"@)
        || eq_ignore_ascii_case(k, "num_children"@)
        || eq_ignore_ascii_case(k, "num_comments_public"@)
        || eq_ignore_ascii_case(k, "num_reports"@)
        || eq_ignore_ascii_case(k, "preview_file_size"@)
        || eq_ignore_ascii_case(k, "preview_url"@)
        || eq_ignore_ascii_case(k, "publishedfileid"@)
        || eq_ignore_ascii_case(k, "raw_tags"@)
        || eq_ignore_ascii_case(k, "result"@)
        || eq_ignore_ascii_case(k, "revision"@)
        || eq_ignore_ascii_case(k, "revision_change_number"@)
        || eq_ignore_ascii_case(k, "show_subscribe_all"@)
        || eq_ignore_ascii_case(k, "tags"@)
        || eq_ignore_ascii_case(k, "ban_reason"@)
        || eq_ignore_ascii_case(k, "ban_text_check_result"@)
        || eq_ignore_ascii_case(k, "banned"@)
        || eq_ignore_ascii_case(k, "banner"@)
        || eq_ignore_ascii_case(k, "can_be_deleted"@)
        || eq_ignore_ascii_case(k, "can_subscribe"@)
        || eq_ignore_ascii_case(k, "consumer_appid"@)
        || eq_ignore_ascii_case(k, "consumer_shortcutid"@)
        || eq_ignore_ascii_case(k, "creator"@)
        || eq_ignore_ascii_case(k, "creator_appid"@)
        || eq_ignore_ascii_case(k, "creator_avatar"@)
        || eq_ignore_ascii_case(k, "creator_avatar_hash"@)
        || eq_ignore_ascii_case(k, "creator_avatar_medium"@)
        || eq_ignore_ascii_case(k, "creator_avatar_small"@)
        || eq_ignore_ascii_case(k, "creator_commentpermission"@)
        || eq_ignore_ascii_case(k, "creator_communityvisibilitystate"@)
        || eq_ignore_ascii_case(k, "creator_id"@)
        || eq_ignore_ascii_case(k, "creator_loccountrycode"@)
        || eq_ignore_ascii_case(k, "creator_locstatecode"@)
        || eq_ignore_ascii_case(k, "creator_personastate"@)
        || eq_ignore_ascii_case(k, "creator_personastateflags"@)
        || eq_ignore_ascii_case(k, "creator_primaryclanid"@)
        || eq_ignore_ascii_case(k, "creator_profileurl"@)
        || eq_ignore_ascii_case(k, "creator_profilestate"@)
        || eq_ignore_ascii_case(k, "creator_name"@)
        || eq_ignore_ascii_case(k, "creator_realname"@)
        || eq_ignore_ascii_case(k, "creator_steamid"@)
        || eq_ignore_ascii_case(k, "creator_timecreated"@)
        || eq_ignore_ascii_case(k, "title"@)
        || eq_ignore_ascii_case(k, "visibility"@)
        || eq_ignore_ascii_case(k, "workshop_accepted"@)
        || eq_ignore_ascii_case(k, "workshop_file"@)
        || eq_ignore_ascii_case(k, "map_followers"@)
        || eq_ignore_ascii_case(k, "followers"@)
        || eq_ignore_ascii_case(k, "lifetime_favorited"@)
        || eq_ignore_ascii_case(k, "lifetime_followers"@)
        || eq_ignore_ascii_case(k, "lifetime_playtime"@)
        || eq_ignore_ascii_case(k, "lifetime_playtime_sessions"@)
        || eq_ignore_ascii_case(k, "lifetime_subscriptions"@)
        || eq_ignore_ascii_case(k, "hcontent_file"@)
        || eq_ignore_ascii_case(k, "hcontent_preview"@)
        || eq_ignore_ascii_case(k, "language"@)
        || eq_ignore_ascii_case(k, "file_type"@)
        || eq_ignore_ascii_case(k, "file_url"@)
        || eq_ignore_ascii_case(k, "fileid"@)
        || eq_ignore_ascii_case(k, "filename"@)
        || eq_ignore_ascii_case(k, "flags"@)
}

pub fn denied_key(k: &str) -> (r: bool)
    ensures
        r == is_denied_key(k@),
{
    same_ignoring_ascii_case(k, "description")
        || same_ignoring_ascii_case(k, "file_description")
        || same_ignoring_ascii_case(k, "short_description")
        || same_ignoring_ascii_case(k, "app_name")
        || same_ignoring_ascii_case(k, "appid")
        || same_ignoring_ascii_case(k, "author")
        || same_ignoring_ascii_case(k, "maybe_inappropriate_violence")
        || same_ignoring_ascii_case(k, "num_children")
        || same_ignoring_ascii_case(k, "num_comments_public")
        || same_ignoring_ascii_case(k, "num_reports")
        || same_ignoring_ascii_case(k, "preview_file_size")
        || same_ignoring_ascii_case(k, "preview_url")
        || same_ignoring_ascii_case(k, "publishedfileid")
        || same_ignoring_ascii_case(k, "raw_tags")
        || same_ignoring_ascii_case(k, "result")
        || same_ignoring_ascii_case(k, "revision")
        || same_ignoring_ascii_case(k, "revision_change_number")
        || same_ignoring_ascii_case(k, "show_subscribe_all")
        || same_ignoring_ascii_case(k, "tags")
        || same_ignoring_ascii_case(k, "ban_reason")
        || same_ignoring_ascii_case(k, "ban_text_check_result")
        || same_ignoring_ascii_case(k, "banned")
        || same_ignoring_ascii_case(k, "banner")
        || same_ignoring_ascii_case(k, "can_be_deleted")
        || same_ignoring_ascii_case(k, "can_subscribe")
        || same_ignoring_ascii_case(k, "consumer_appid")
        || same_ignoring_ascii_case(k, "consumer_shortcutid")
        || same_ignoring_ascii_case(k, "creator")
        || same_ignoring_ascii_case(k, "creator_appid")
        || same_ignoring_ascii_case(k, "creator_avatar")
        || same_ignoring_ascii_case(k, "creator_avatar_hash")
        || same_ignoring_ascii_case(k, "creator_avatar_medium")
        || same_ignoring_ascii_case(k, "creator_avatar_small")
        || same_ignoring_ascii_case(k, "creator_commentpermission")
        || same_ignoring_ascii_case(k, "creator_communityvisibilitystate")
        || same_ignoring_ascii_case(k, "creator_id")
        || same_ignoring_ascii_case(k, "creator_loccountrycode")
        || same_ignoring_ascii_case(k, "creator_locstatecode")
        || same_ignoring_ascii_case(k, "creator_personastate")
        || same_ignoring_ascii_case(k, "creator_personastateflags")
        || same_ignoring_ascii_case(k, "creator_primaryclanid")
        || same_ignoring_ascii_case(k, "creator_profileurl")
        || same_ignoring_ascii_case(k, "creator_profilestate")
        || same_ignoring_ascii_case(k, "creator_name")
        || same_ignoring_ascii_case(k, "creator_realname")
        || same_ignoring_ascii_case(k, "creator_steamid")
        || same_ignoring_ascii_case(k, "creator_timecreated")
        || same_ignoring_ascii_case(k, "title")
        || same_ignoring_ascii_case(k, "visibility")
        || same_ignoring_ascii_case(k, "workshop_accepted")
        || same_ignoring_ascii_case(k, "workshop_file")
        || same_ignoring_ascii_case(k, "map_followers")
        || same_ignoring_ascii_case(k, "followers")
        || same_ignoring_ascii_case(k, "lifetime_favorited")
        || same_ignoring_ascii_case(k, "lifetime_followers")
        || same_ignoring_ascii_case(k, "lifetime_playtime")
        || same_ignoring_ascii_case(k, "lifetime_playtime_sessions")
        || same_ignoring_ascii_case(k, "lifetime_subscriptions")
        || same_ignoring_ascii_case(k, "hcontent_file")
        || same_ignoring_ascii_case(k, "hcontent_preview")
        || same_ignoring_ascii_case(k, "language")
        || same_ignoring_ascii_case(k, "file_type")
        || same_ignoring_ascii_case(k, "file_url")
        || same_ignoring_ascii_case(k, "fileid")
        || same_ignoring_ascii_case(k, "filename")
        || same_ignoring_ascii_case(k, "flags")
}

pub open spec fn allowed_field(e: (String, Json)) -> bool {
    !is_denied_key(e.0@)
}

/// The fields of `es` whose keys are not denied, in order.
pub open spec fn allowed_fields(es: Seq<(String, Json)>) -> Seq<(String, Json)>
    decreases es.len(),
{
    if es.len() == 0 {
        seq![]
    } else {
        let r = allowed_fields(es.drop_last());
        if allowed_field(es.last()) {
            r.push(es.last())
        } else {
            r
        }
    }
}

proof fn lemma_allowed_from(es: Seq<(String, Json)>)
    ensures
        forall|x: int|
            0 <= x < allowed_fields(es).len() ==> exists|j: int|
                0 <= j < es.len() && es[j] == #[trigger] allowed_fields(es)[x],
    decreases es.len(),
{
    if es.len() > 0 {
        let d = es.drop_last();
        lemma_allowed_from(d);
        let r = allowed_fields(es);
        assert forall|x: int| 0 <= x < r.len() implies exists|j: int|
            0 <= j < es.len() && es[j] == #[trigger] r[x] by {
            if x < allowed_fields(d).len() {
                let j = choose|j: int| 0 <= j < d.len() && d[j] == allowed_fields(d)[x];
                assert(es[j] == r[x]);
            } else {
                assert(es[es.len() - 1] == r[x]);
            }
        }
    }
}

/// Removing fields keeps the keys of an object distinct.
pub proof fn lemma_allowed_distinct(es: Seq<(String, Json)>)
    requires
        distinct_keys(es),
    ensures
        distinct_keys(allowed_fields(es)),
    decreases es.len(),
{
    if es.len() > 0 {
        let d = es.drop_last();
        assert(distinct_keys(d)) by {
            assert forall|a: int, b: int| 0 <= a < b < d.len() implies (#[trigger] d[a]).0@ != (
            #[trigger] d[b]).0@ by {
                assert(d[a] == es[a] && d[b] == es[b]);
            }
        }
        lemma_allowed_distinct(d);
        lemma_allowed_from(d);
        let q = allowed_fields(d);
        if allowed_field(es.last()) {
            let r = q.push(es.last());
            assert forall|a: int, b: int| 0 <= a < b < r.len() implies (#[trigger] r[a]).0@ != (
            #[trigger] r[b]).0@ by {
                if b == q.len() {
                    let j = choose|j: int| 0 <= j < d.len() && d[j] == #[trigger] q[a];
                    assert(es[j] == r[a]);
                    assert(es[es.len() - 1] == r[b]);
                } else {
                    assert(r[a] == q[a] && r[b] == q[b]);
                }
            }
        }
    }
}

/// Attached metadata with the denied keys of an object removed; any other
/// value is returned as it is.
pub fn strip_workshop_descriptions(value: Json) -> (r: Json)
    ensures
        match value {
            Json::Object(m) => match r {
                Json::Object(o) => o@ == allowed_fields(m@) && (distinct_keys(m@) ==> distinct_keys(
                    o@,
                )),
                _ => false,
            },
            _ => r == value,
        },
{
    match value {
        Json::Object(m) => {
            let ghost src = m@;
            let mut rest = m;
            let mut out: Vec<(String, Json)> = Vec::new();
            let ghost done: int = 0;
            assert(src.subrange(0, 0) =~= Seq::<(String, Json)>::empty());
            while rest.len() > 0
                invariant
                    0 <= done <= src.len(),
                    rest@ == src.subrange(done, src.len() as int),
                    out@ == allowed_fields(src.subrange(0, done)),
                decreases rest.len(),
            {
                let ghost pre = src.subrange(0, done + 1);
                assert(pre.drop_last() =~= src.subrange(0, done));
                let e = rest.remove(0);
                assert(pre.last() == e);
                assert(rest@ =~= src.subrange(done + 1, src.len() as int));
                if !denied_key(e.0.as_str()) {
                    out.push(e);
                }
                proof {
                    done = done + 1;
                }
            }
            assert(src.subrange(0, src.len() as int) =~= src);
            proof {
                if distinct_keys(src) {
                    lemma_allowed_distinct(src);
                }
            }
            Json::Object(out)
        },
        other => other,
    }
}

/// The first position in `es` of a field with key `key`.
pub open spec fn find_field(es: Seq<(String, Json)>, key: Text) -> Option<int>
    decreases es.len(),
{
    if es.len() == 0 {
        None
    } else {
        match find_field(es.drop_last(), key) {
            Some(i) => Some(i),
            None => if es.last().0@ == key {
                Some(es.len() - 1)
            } else {
                None
            },
        }
    }
}

/// The value of the field with key `key`, as a map lookup gives it.
pub open spec fn lookup(es: Seq<(String, Json)>, key: Text) -> Option<Json> {
    match find_field(es, key) {
        Some(i) => Some(es[i].1),
        None => None,
    }
}

proof fn lemma_find_field(es: Seq<(String, Json)>, key: Text, i: int)
    requires
        0 <= i <= es.len(),
        forall|j: int| 0 <= j < i ==> (#[trigger] es[j]).0@ != key,
        i == es.len() || es[i].0@ == key,
    ensures
        find_field(es, key) == if i == es.len() {
            None
        } else {
            Some(i)
        },
    decreases es.len(),
{
    if es.len() > 0 {
        if i == es.len() {
            lemma_find_field(es.drop_last(), key, i - 1);
            assert(es[i - 1].0@ != key);
        } else {
            lemma_find_field(es.drop_last(), key, i);
        }
    }
}

/// The value of the field `key` of an object's fields: the first field with
/// that key, which is the only one where the keys are distinct.
pub fn get_field<'a>(m: &'a Vec<(String, Json)>, key: &str) -> (r: Option<&'a Json>)
    ensures
        match r {
            Some(v) => lookup(m@, key@) == Some(*v),
            None => lookup(m@, key@) is None,
        },
{
    let mut i: usize = 0;
    while i < m.len()
        invariant
            i <= m.len(),
            forall|j: int| 0 <= j < i ==> (#[trigger] m@[j]).0@ != key@,
        decreases m.len() - i,
    {
        if crate::descriptor::text_eq(m[i].0.as_str(), key) {
            proof {
                lemma_find_field(m@, key@, i as int);
            }
            return Some(&m[i].1);
        }
        i = i + 1;
    }
    proof {
        lemma_find_field(m@, key@, m.len() as int);
    }
    None
}

/// The id that a metadata value gives: a text, trimmed, where not blank; a
/// number as written.
pub open spec fn id_of_json(j: Json) -> Option<Text> {
    match j {
        Json::Str(s) => if trim(s@).len() == 0 {
            None
        } else {
            Some(trim(s@))
        },
        Json::Number(n) => Some(n@),
        _ => None,
    }
}

pub fn json_value_to_id(value: &Json) -> (r: Option<String>)
    ensures
        r.deep_view() == id_of_json(*value),
{
    match value {
        Json::Str(s) => {
            let t = trim_string(s.as_str());
            if t.unicode_len() == 0 {
                None
            } else {
                Some(t)
            }
        },
        Json::Number(n) => Some(n.clone()),
        _ => None,
    }
}

pub open spec fn lookup_id(o: Seq<(String, Json)>, key: Text) -> Option<Text> {
    match lookup(o, key) {
        Some(v) => id_of_json(v),
        None => None,
    }
}

/// The workshop id of an entry: its own, trimmed, where not blank; else the
/// id under `fileid`, then under `publishedfileid`, of its metadata object.
pub open spec fn workshop_key_of(m: ModSummaryView) -> Option<Text> {
    let own = match m.workshop_id {
        Some(w) => trim(w),
        None => Seq::<char>::empty(),
    };
    if own.len() > 0 {
        Some(own)
    } else {
        match m.workshop {
            Some(Json::Object(o)) => match lookup_id(o@, "fileid"@) {
                Some(x) => Some(x),
                None => lookup_id(o@, "publishedfileid"@),
            },
            _ => None,
        }
    }
}

fn field_id(o: &Vec<(String, Json)>, key: &str) -> (r: Option<String>)
    ensures
        r.deep_view() == lookup_id(o@, key@),
{
    match get_field(o, key) {
        Some(v) => json_value_to_id(v),
        None => None,
    }
}

pub fn workshop_key_for_mod(mod_item: &ModSummary) -> (r: Option<String>)
    ensures
        r.deep_view() == workshop_key_of(mod_item@),
{
    match &mod_item.workshop_id {
        Some(w) => {
            let t = trim_string(w.as_str());
            if t.unicode_len() > 0 {
                return Some(t);
            }
        },
        None => {},
    }
    proof {
        if mod_item.workshop_id is None {
            assert(trim(Seq::<char>::empty()) =~= Seq::<char>::empty());
        }
    }
    match &mod_item.workshop {
        Some(Json::Object(o)) => {
            match field_id(o, "fileid") {
                Some(x) => Some(x),
                None => field_id(o, "publishedfileid"),
            }
        },
        _ => None,
    }
}

/// The author name that an entry's metadata carries: the trimmed text under
/// `creator_name`, where not blank.
pub open spec fn creator_name_of(m: ModSummaryView) -> Option<Text> {
    match m.workshop {
        Some(Json::Object(o)) => match lookup(o@, "creator_name"@) {
            Some(Json::Str(s)) => if trim(s@).len() > 0 {
                Some(trim(s@))
            } else {
                None
            },
            _ => None,
        },
        _ => None,
    }
}

pub fn creator_name(mod_item: &ModSummary) -> (r: Option<String>)
    ensures
        r.deep_view() == creator_name_of(mod_item@),
{
    match &mod_item.workshop {
        Some(Json::Object(o)) => match get_field(o, "creator_name") {
            Some(Json::Str(s)) => {
                let t = trim_string(s.as_str());
                if t.unicode_len() > 0 {
                    Some(t)
                } else {
                    None
                }
            },
            _ => None,
        },
        _ => None,
    }
}

} // verus!
