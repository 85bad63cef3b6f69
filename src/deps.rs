use vstd::prelude::*;

use crate::merge::{list_or_empty, views};
use crate::model::{ModSummary, ModSummaryView, RequiredByInfo, RequiredByView, Text, TextList};
use crate::text::{chars_vec, clean_bounds, clean_token, lower_of, lowercase, string_of, trim, trim_string};

verus! {

/// A reference to another mod as written in a list: trimmed, one layer of
/// matching quotes and then one leading backslash removed.
pub open spec fn normalize_ref(r: Text) -> Text {
    let t = clean_token(r);
    if t.len() > 0 && t[0] == '\\' {
        t.drop_first()
    } else {
        t
    }
}

/// The lower-cased form under which a reference is looked up.
pub open spec fn ref_key(r: Text) -> Text {
    lower_of(normalize_ref(r))
}

/// The trimmed id of an entry; empty where it has none.
pub open spec fn source_id(m: ModSummaryView) -> Text {
    match m.mod_id {
        Some(x) => trim(x),
        None => Seq::<char>::empty(),
    }
}

/// What an entry depends on: its `requires`, then its `dependencies`.
pub open spec fn refs_of(m: ModSummaryView) -> TextList {
    list_or_empty(m.requires) + list_or_empty(m.dependencies)
}

pub open spec fn ref_keys_of(m: ModSummaryView) -> TextList {
    refs_of(m).map_values(|r: Text| ref_key(r))
}

pub open spec fn has_requester(p: Seq<RequiredByView>, id: Text) -> bool {
    exists|i: int| 0 <= i < p.len() && (#[trigger] p[i]).mod_id == id
}

/// The requesters of target `k` after the references `keys` of the entry with
/// id `sid` and name `name`: a reference to `k` adds the entry unless a
/// requester with the same id is already there.
pub open spec fn add_refs(
    p: Seq<RequiredByView>,
    sid: Text,
    name: Text,
    keys: TextList,
    k: Text,
) -> Seq<RequiredByView>
    decreases keys.len(),
{
    if keys.len() == 0 {
        p
    } else {
        let q = add_refs(p, sid, name, keys.drop_last(), k);
        if keys.last() == k && !has_requester(q, sid) {
            q.push(RequiredByView { mod_id: sid, name: name })
        } else {
            q
        }
    }
}

/// The requesters of target `k` among `es`, in encounter order, leaving out
/// the entry at position `skip` (the target itself).
pub open spec fn pending(es: Seq<ModSummaryView>, k: Text, skip: int) -> Seq<RequiredByView>
    decreases es.len(),
{
    if es.len() == 0 {
        seq![]
    } else {
        let p = pending(es.drop_last(), k, skip);
        let e = es.last();
        if source_id(e).len() == 0 || es.len() - 1 == skip {
            p
        } else {
            add_refs(p, source_id(e), e.name, ref_keys_of(e), k)
        }
    }
}

/// `a` comes no later than `b` in code point order.
pub open spec fn text_le(a: Text, b: Text) -> bool
    decreases a.len(),
{
    if a.len() == 0 {
        true
    } else if b.len() == 0 {
        false
    } else if a[0] != b[0] {
        a[0] < b[0]
    } else {
        text_le(a.drop_first(), b.drop_first())
    }
}

pub open spec fn name_key(r: RequiredByView) -> Text {
    lower_of(r.name)
}

/// `x` placed after every item of `sorted` whose name is not greater.
pub open spec fn insert_by_name(sorted: Seq<RequiredByView>, x: RequiredByView) -> Seq<RequiredByView>
    decreases sorted.len(),
{
    if sorted.len() == 0 {
        seq![x]
    } else if text_le(name_key(sorted.last()), name_key(x)) {
        sorted.push(x)
    } else {
        insert_by_name(sorted.drop_last(), x).push(sorted.last())
    }
}

/// The stable sort by lower-cased name.
pub open spec fn sort_by_name(s: Seq<RequiredByView>) -> Seq<RequiredByView>
    decreases s.len(),
{
    if s.len() == 0 {
        seq![]
    } else {
        insert_by_name(sort_by_name(s.drop_last()), s.last())
    }
}

/// The required-by list of the entry at position `i` of the catalog `es`:
/// the other entries that reference its id; absent where it has no id or
/// nothing depends on it.
pub open spec fn required_by_of(es: Seq<ModSummaryView>, i: int) -> Option<Seq<RequiredByView>> {
    let s = source_id(es[i]);
    if s.len() == 0 {
        None
    } else {
        let p = pending(es, lower_of(s), i);
        if p.len() == 0 {
            None
        } else {
            Some(sort_by_name(p))
        }
    }
}

/// Every entry of the catalog with its required-by list computed afresh.
pub open spec fn link_all(es: Seq<ModSummaryView>) -> Seq<ModSummaryView> {
    es.map(|i: int, e: ModSummaryView| ModSummaryView { required_by: required_by_of(es, i), ..e })
}

/// A reference, normalized.
pub fn normalize_mod_ref(raw: &str) -> (r: String)
    ensures
        r@ == normalize_ref(raw@),
{
    let v = chars_vec(raw);
    let (lo, hi) = clean_bounds(&v, 0, v.len());
    assert(v@.subrange(0, v.len() as int) == raw@);
    if lo < hi && v[lo] == '\\' {
        assert(v@.subrange(lo + 1, hi as int) == v@.subrange(lo as int, hi as int).drop_first());
        string_of(&v, lo + 1, hi)
    } else {
        string_of(&v, lo, hi)
    }
}

/// `a` comes no later than `b` in code point order.
pub fn text_le_exec(a: &Vec<char>, b: &Vec<char>) -> (r: bool)
    ensures
        r == text_le(a@, b@),
{
    let mut i: usize = 0;
    assert(a@.subrange(0, a.len() as int) == a@);
    assert(b@.subrange(0, b.len() as int) == b@);
    while i < a.len() && i < b.len() && a[i] == b[i]
        invariant
            i <= a.len(),
            i <= b.len(),
            text_le(a@, b@) == text_le(a@.subrange(i as int, a.len() as int), b@.subrange(i as int, b.len() as int)),
        decreases a.len() - i,
    {
        let ghost sa = a@.subrange(i as int, a.len() as int);
        let ghost sb = b@.subrange(i as int, b.len() as int);
        assert(sa.drop_first() =~= a@.subrange(i + 1, a.len() as int));
        assert(sb.drop_first() =~= b@.subrange(i + 1, b.len() as int));
        i = i + 1;
    }
    assert(a@.subrange(0, a.len() as int) == a@);
    assert(b@.subrange(0, b.len() as int) == b@);
    let ghost sa = a@.subrange(i as int, a.len() as int);
    let ghost sb = b@.subrange(i as int, b.len() as int);
    if i == a.len() {
        true
    } else if i == b.len() {
        false
    } else {
        assert(sa[0] == a@[i as int]);
        assert(sb[0] == b@[i as int]);
        a[i] < b[i]
    }
}

} // verus!

verus! {

/// What the cross-referencer reads of one entry.
struct EntryRefs {
    sid: String,
    key: Option<String>,
    name: String,
    ref_keys: Vec<String>,
}

spec fn refs_match(info: EntryRefs, e: ModSummaryView) -> bool {
    &&& info.sid@ == source_id(e)
    &&& info.name@ == e.name
    &&& info.ref_keys.deep_view() == ref_keys_of(e)
    &&& match info.key {
        Some(k) => source_id(e).len() > 0 && k@ == lower_of(source_id(e)),
        None => source_id(e).len() == 0,
    }
}

fn push_ref_keys(out: &mut Vec<String>, list: &Option<Vec<String>>)
    ensures
        final(out).deep_view() == old(out).deep_view() + list_or_empty(list.deep_view()).map_values(
            |r: Text| ref_key(r),
        ),
{
    let ghost start = out.deep_view();
    match list {
        Some(v) => {
            let mut i: usize = 0;
            while i < v.len()
                invariant
                    i <= v.len(),
                    out.deep_view() == start + v.deep_view().subrange(0, i as int).map_values(
                        |r: Text| ref_key(r),
                    ),
                decreases v.len() - i,
            {
                let ghost before = out.deep_view();
                let k = lowercase(normalize_mod_ref(v[i].as_str()).as_str());
                out.push(k);
                assert(out.deep_view() =~= before.push(ref_key(v[i as int]@)));
                assert(v.deep_view().subrange(0, i + 1).map_values(|r: Text| ref_key(r))
                    =~= v.deep_view().subrange(0, i as int).map_values(|r: Text| ref_key(r)).push(
                    ref_key(v[i as int]@),
                ));
                i = i + 1;
            }
            assert(v.deep_view().subrange(0, v.len() as int) =~= v.deep_view());
        },
        None => {
            assert(out.deep_view() =~= start + Seq::<Text>::empty().map_values(|r: Text| ref_key(r)));
        },
    }
}

fn entry_refs(e: &ModSummary) -> (r: EntryRefs)
    ensures
        refs_match(r, e@),
{
    let sid = match &e.mod_id {
        Some(x) => trim_string(x.as_str()),
        None => String::new(),
    };
    let key = if sid.unicode_len() == 0 {
        None
    } else {
        Some(lowercase(sid.as_str()))
    };
    let mut ref_keys: Vec<String> = Vec::new();
    assert(ref_keys.deep_view() =~= Seq::<Text>::empty());
    push_ref_keys(&mut ref_keys, &e.requires);
    push_ref_keys(&mut ref_keys, &e.dependencies);
    assert(ref_keys.deep_view() =~= ref_keys_of(e@));
    EntryRefs { sid, key, name: e.name.clone(), ref_keys }
}

spec fn rb_views(p: Seq<RequiredByInfo>) -> Seq<RequiredByView> {
    p.map_values(|r: RequiredByInfo| r@)
}

fn has_requester_exec(p: &Vec<RequiredByInfo>, id: &String) -> (r: bool)
    ensures
        r == has_requester(rb_views(p@), id@),
{
    let mut i: usize = 0;
    while i < p.len()
        invariant
            i <= p.len(),
            forall|j: int| 0 <= j < i ==> p@[j].mod_id@ != id@,
        decreases p.len() - i,
    {
        if p[i].mod_id == *id {
            assert(rb_views(p@)[i as int].mod_id == id@);
            return true;
        }
        i = i + 1;
    }
    assert(!has_requester(rb_views(p@), id@)) by {
        if has_requester(rb_views(p@), id@) {
            let j = choose|j: int| 0 <= j < rb_views(p@).len() && (#[trigger] rb_views(p@)[j]).mod_id == id@;
            assert(p@[j].mod_id@ == id@);
        }
    }
    false
}

/// The requesters of the target at position `skip` with key `k`, in
/// encounter order.
fn pending_for(
    infos: &Vec<EntryRefs>,
    Ghost(es): Ghost<Seq<ModSummaryView>>,
    k: &String,
    skip: usize,
) -> (r: Vec<RequiredByInfo>)
    requires
        infos.len() == es.len(),
        forall|i: int| 0 <= i < es.len() ==> refs_match(#[trigger] infos@[i], es[i]),
    ensures
        rb_views(r@) == pending(es, k@, skip as int),
{
    let mut p: Vec<RequiredByInfo> = Vec::new();
    let mut i: usize = 0;
    assert(rb_views(p@) =~= Seq::<RequiredByView>::empty());
    assert(es.subrange(0, 0) =~= Seq::<ModSummaryView>::empty());
    while i < infos.len()
        invariant
            infos.len() == es.len(),
            forall|i: int| 0 <= i < es.len() ==> refs_match(#[trigger] infos@[i], es[i]),
            i <= infos.len(),
            rb_views(p@) == pending(es.subrange(0, i as int), k@, skip as int),
        decreases infos.len() - i,
    {
        let info = &infos[i];
        let ghost e = es[i as int];
        assert(refs_match(infos@[i as int], e));
        let ghost pre = es.subrange(0, i + 1);
        assert(pre.drop_last() =~= es.subrange(0, i as int));
        assert(pre.last() == e);
        match &info.key {
            Some(_) if i != skip => {
                let ghost p0 = rb_views(p@);
                let mut j: usize = 0;
                assert(info.ref_keys.deep_view().subrange(0, 0) =~= Seq::<Text>::empty());
                while j < info.ref_keys.len()
                    invariant
                        j <= info.ref_keys.len(),
                        info.ref_keys.deep_view() == ref_keys_of(e),
                        info.sid@ == source_id(e),
                        info.name@ == e.name,
                        rb_views(p@) == add_refs(p0, info.sid@, info.name@, info.ref_keys.deep_view().subrange(0, j as int), k@),
                    decreases info.ref_keys.len() - j,
                {
                    let ghost ks = info.ref_keys.deep_view().subrange(0, j + 1);
                    assert(ks.drop_last() =~= info.ref_keys.deep_view().subrange(0, j as int));
                    assert(ks.last() == info.ref_keys[j as int]@);
                    if info.ref_keys[j] == *k && !has_requester_exec(&p, &info.sid) {
                        let ghost before = rb_views(p@);
                        p.push(RequiredByInfo { mod_id: info.sid.clone(), name: info.name.clone() });
                        assert(rb_views(p@) =~= before.push(RequiredByView { mod_id: info.sid@, name: info.name@ }));
                    }
                    j = j + 1;
                }
                assert(info.ref_keys.deep_view().subrange(0, info.ref_keys.len() as int) =~= info.ref_keys.deep_view());
            },
            _ => {},
        }
        i = i + 1;
    }
    assert(es.subrange(0, es.len() as int) =~= es);
    p
}

proof fn lemma_insert_at(sorted: Seq<RequiredByView>, x: RequiredByView, j: int)
    requires
        0 <= j <= sorted.len(),
        forall|i: int| j <= i < sorted.len() ==> !text_le(name_key(#[trigger] sorted[i]), name_key(x)),
        j == 0 || text_le(name_key(sorted[j - 1]), name_key(x)),
    ensures
        insert_by_name(sorted, x) == sorted.subrange(0, j).push(x) + sorted.subrange(j, sorted.len() as int),
    decreases sorted.len(),
{
    if sorted.len() == 0 {
        assert(seq![x] =~= Seq::<RequiredByView>::empty().push(x) + Seq::<RequiredByView>::empty());
    } else if j == sorted.len() {
        assert(sorted.subrange(0, j) =~= sorted);
        assert(sorted.subrange(j, sorted.len() as int) =~= Seq::<RequiredByView>::empty());
        assert(sorted.push(x) + Seq::<RequiredByView>::empty() =~= sorted.push(x));
    } else {
        assert(!text_le(name_key(sorted[sorted.len() - 1]), name_key(x)));
        let d = sorted.drop_last();
        lemma_insert_at(d, x, j);
        assert(d.subrange(0, j) =~= sorted.subrange(0, j));
        assert((d.subrange(0, j).push(x) + d.subrange(j, d.len() as int)).push(sorted.last())
            =~= sorted.subrange(0, j).push(x) + sorted.subrange(j, sorted.len() as int));
    }
}

/// The requesters sorted by lower-cased name; equal names keep their order.
fn sort_required_by(p: Vec<RequiredByInfo>) -> (r: Vec<RequiredByInfo>)
    ensures
        rb_views(r@) == sort_by_name(rb_views(p@)),
{
    let ghost src = rb_views(p@);
    let mut out: Vec<RequiredByInfo> = Vec::new();
    let mut keys: Vec<Vec<char>> = Vec::new();
    let mut i: usize = 0;
    assert(src.subrange(0, 0) =~= Seq::<RequiredByView>::empty());
    assert(rb_views(out@) =~= Seq::<RequiredByView>::empty());
    while i < p.len()
        invariant
            src == rb_views(p@),
            i <= p.len(),
            keys.len() == out.len(),
            forall|m: int| 0 <= m < out.len() ==> (#[trigger] keys@[m])@ == lower_of(out@[m].name@),
            rb_views(out@) == sort_by_name(src.subrange(0, i as int)),
        decreases p.len() - i,
    {
        let ghost pre = src.subrange(0, i + 1);
        assert(pre.drop_last() =~= src.subrange(0, i as int));
        assert(pre.last() == p@[i as int]@);
        let x = RequiredByInfo { mod_id: p[i].mod_id.clone(), name: p[i].name.clone() };
        let kx = chars_vec(lowercase(x.name.as_str()).as_str());
        let mut j = out.len();
        while j > 0 && !text_le_exec(&keys[j - 1], &kx)
            invariant
                j <= out.len(),
                keys.len() == out.len(),
                forall|m: int| 0 <= m < out.len() ==> (#[trigger] keys@[m])@ == lower_of(out@[m].name@),
                forall|m: int| j <= m < out.len() ==> !text_le(lower_of(out@[m].name@), kx@),
            decreases j,
        {
            j = j - 1;
        }
        proof {
            let s = rb_views(out@);
            assert forall|m: int| j <= m < s.len() implies !text_le(name_key(#[trigger] s[m]), name_key(x@)) by {
                assert(s[m] == out@[m]@);
            }
            if j > 0 {
                assert(s[j - 1] == out@[j - 1]@);
            }
            lemma_insert_at(s, x@, j as int);
        }
        let ghost before = rb_views(out@);
        let ghost out0 = out@;
        let ghost keys0 = keys@;
        out.insert(j, x);
        keys.insert(j, kx);
        assert(rb_views(out@) =~= before.subrange(0, j as int).push(pre.last()) + before.subrange(j as int, before.len() as int));
        assert forall|m: int| 0 <= m < out.len() implies (#[trigger] keys@[m])@ == lower_of(out@[m].name@) by {
            if m < j {
                assert(keys@[m] == keys0[m] && out@[m] == out0[m]);
            } else if m > j {
                assert(keys@[m] == keys0[m - 1] && out@[m] == out0[m - 1]);
            }
        }
        i = i + 1;
    }
    assert(src.subrange(0, p.len() as int) =~= src);
    out
}

/// Computes every entry's required-by list afresh, as `link_all` describes
/// it: for an entry with an id, the other entries that list that id among
/// their requirements or dependencies, each once, sorted by lower-cased name.
pub fn link_required_by(entries: Vec<ModSummary>) -> (r: Vec<ModSummary>)
    ensures
        views(r@) == link_all(views(entries@)),
{
    let ghost es = views(entries@);
    let mut infos: Vec<EntryRefs> = Vec::new();
    let mut i: usize = 0;
    while i < entries.len()
        invariant
            es == views(entries@),
            i <= entries.len(),
            infos.len() == i,
            forall|m: int| 0 <= m < i ==> refs_match(#[trigger] infos@[m], es[m]),
        decreases entries.len() - i,
    {
        infos.push(entry_refs(&entries[i]));
        i = i + 1;
    }
    let mut lists: Vec<Option<Vec<RequiredByInfo>>> = Vec::new();
    let mut t: usize = 0;
    while t < entries.len()
        invariant
            es == views(entries@),
            infos.len() == es.len(),
            forall|m: int| 0 <= m < es.len() ==> refs_match(#[trigger] infos@[m], es[m]),
            t <= entries.len(),
            lists.len() == t,
            forall|m: int| 0 <= m < t ==> match #[trigger] lists@[m] {
                Some(l) => required_by_of(es, m) == Some(rb_views(l@)),
                None => required_by_of(es, m) is None,
            },
        decreases entries.len() - t,
    {
        assert(refs_match(infos@[t as int], es[t as int]));
        match &infos[t].key {
            Some(k) => {
                let p = pending_for(&infos, Ghost(es), k, t);
                if p.len() == 0 {
                    lists.push(None);
                } else {
                    lists.push(Some(sort_required_by(p)));
                }
            },
            None => {
                lists.push(None);
            },
        }
        t = t + 1;
    }
    let total = entries.len();
    let mut rest = entries;
    let mut out: Vec<ModSummary> = Vec::new();
    let mut n: usize = 0;
    while rest.len() > 0
        invariant
            es.len() == total,
            n + rest.len() == es.len(),
            lists.len() + n == es.len(),
            views(rest@) == es.subrange(n as int, es.len() as int),
            forall|m: int| 0 <= m < lists.len() ==> match #[trigger] lists@[m] {
                Some(l) => required_by_of(es, n + m) == Some(rb_views(l@)),
                None => required_by_of(es, n + m) is None,
            },
            views(out@) == link_all(es).subrange(0, n as int),
        decreases rest.len(),
    {
        let ghost old_rest = rest@;
        let ghost old_lists = lists@;
        let ghost old_out = views(out@);
        let mut e = rest.remove(0);
        let l = lists.remove(0);
        assert(views(rest@) =~= views(old_rest).drop_first());
        assert(views(old_rest)[0] == es[n as int]);
        assert forall|m: int| 0 <= m < lists.len() implies match #[trigger] lists@[m] {
            Some(l) => required_by_of(es, n + 1 + m) == Some(rb_views(l@)),
            None => required_by_of(es, n + 1 + m) is None,
        } by {
            assert(lists@[m] == old_lists[m + 1]);
        }
        assert(match old_lists[0] {
            Some(l) => required_by_of(es, n as int) == Some(rb_views(l@)),
            None => required_by_of(es, n as int) is None,
        });
        e.required_by = l;
        out.push(e);
        assert(views(out@) =~= link_all(es).subrange(0, n + 1)) by {
            assert(views(out@) =~= old_out.push(e@));
        }
        n = n + 1;
    }
    assert(link_all(es).subrange(0, es.len() as int) =~= link_all(es));
    out
}

} // verus!

verus! {

proof fn lemma_pending_past_end(es: Seq<ModSummaryView>, k: Text, skip: int)
    requires
        skip >= es.len() || skip < 0,
    ensures
        pending(es, k, skip) == pending(es, k, -1),
    decreases es.len(),
{
    if es.len() > 0 {
        lemma_pending_past_end(es.drop_last(), k, skip);
    }
}

/// An entry's required-by list is what the other entries alone give: it is
/// computed as if the entry itself were not in the catalog, so an entry that
/// lists its own id is never its own requester.
pub proof fn lemma_no_self_requirement(es: Seq<ModSummaryView>, i: int, k: Text)
    requires
        0 <= i < es.len(),
    ensures
        pending(es, k, i) == pending(es.remove(i), k, -1),
    decreases es.len(),
{
    if i == es.len() - 1 {
        assert(es.remove(i) =~= es.drop_last());
        lemma_pending_past_end(es.drop_last(), k, i);
    } else {
        lemma_no_self_requirement(es.drop_last(), i, k);
        let r = es.remove(i);
        assert(r.drop_last() =~= es.drop_last().remove(i));
        assert(r.last() == es.last());
    }
}

} // verus!

verus! {

/// The catalog of a set of parsed descriptors, in encounter order:
/// deduplicated by identity, then cross-referenced.
pub fn build_catalog(summaries: Vec<ModSummary>) -> (r: Vec<ModSummary>)
    ensures
        views(r@) == link_all(crate::merge::merge_all(views(summaries@))),
{
    link_required_by(crate::merge::merge_catalog(summaries))
}

} // verus!
