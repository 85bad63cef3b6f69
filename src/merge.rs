use vstd::prelude::*;

use crate::model::{ModSummary, ModSummaryView, Text, TextList};
use crate::text::{
    blank, empty_list, eq_ignore_ascii_case, is_blank, lower_of, lowercase,
    same_ignoring_ascii_case, trim, trim_string,
};

verus! {

/// A scalar field after a merge: the incoming value wins only where the
/// current one is absent or blank and the incoming one is not blank.
pub open spec fn merge_text(base: Option<Text>, incoming: Option<Text>) -> Option<Text> {
    let base_empty = match base {
        Some(b) => is_blank(b),
        None => true,
    };
    match incoming {
        Some(v) => if base_empty && !is_blank(v) {
            Some(v)
        } else {
            base
        },
        None => base,
    }
}

/// Some item of `list` equals `x` up to ASCII case.
pub open spec fn contains_ignoring_case(list: TextList, x: Text) -> bool {
    exists|i: int| 0 <= i < list.len() && eq_ignore_ascii_case(#[trigger] list[i], x)
}

/// `acc` followed by the items of `incoming` that are not blank and not yet
/// present up to ASCII case, each checked against what came before it.
pub open spec fn union_into(acc: TextList, incoming: TextList) -> TextList
    decreases incoming.len(),
{
    if incoming.len() == 0 {
        acc
    } else {
        let a = union_into(acc, incoming.drop_last());
        let x = incoming.last();
        if is_blank(x) || contains_ignoring_case(a, x) {
            a
        } else {
            a.push(x)
        }
    }
}

pub open spec fn list_or_empty(l: Option<TextList>) -> TextList {
    match l {
        Some(v) => v,
        None => seq![],
    }
}

/// A list field after a merge: the union, keeping the current order, or
/// absent when it has no items.
pub open spec fn merge_list(base: Option<TextList>, incoming: Option<TextList>) -> Option<TextList> {
    let u = union_into(list_or_empty(base), list_or_empty(incoming));
    if u.len() == 0 {
        None
    } else {
        Some(u)
    }
}

/// Two descriptors of one mod merged: `incoming` fills what `base` lacks.
/// The identity, the flags, the required-by list and the attached metadata
/// of `base` are kept.
pub open spec fn merge_view(b: ModSummaryView, i: ModSummaryView) -> ModSummaryView {
    ModSummaryView {
        mod_id: merge_text(b.mod_id, i.mod_id),
        name: if is_blank(b.name) && !is_blank(i.name) {
            i.name
        } else {
            b.name
        },
        workshop_id: merge_text(b.workshop_id, i.workshop_id),
        author: merge_text(b.author, i.author),
        version: merge_text(b.version, i.version),
        version_min: merge_text(b.version_min, i.version_min),
        version_max: merge_text(b.version_max, i.version_max),
        install_date: merge_text(b.install_date, i.install_date),
        url: merge_text(b.url, i.url),
        requires: merge_list(b.requires, i.requires),
        dependencies: merge_list(b.dependencies, i.dependencies),
        load_after: merge_list(b.load_after, i.load_after),
        load_before: merge_list(b.load_before, i.load_before),
        incompatible: merge_list(b.incompatible, i.incompatible),
        packs: merge_list(b.packs, i.packs),
        tiledefs: merge_list(b.tiledefs, i.tiledefs),
        soundbanks: merge_list(b.soundbanks, i.soundbanks),
        worldmap: merge_text(b.worldmap, i.worldmap),
        icon: merge_text(b.icon, i.icon),
        preview_image_path: merge_text(b.preview_image_path, i.preview_image_path),
        poster_image_paths: merge_list(b.poster_image_paths, i.poster_image_paths),
        description: merge_text(b.description, i.description),
        mod_info_path: merge_text(b.mod_info_path, i.mod_info_path),
        ..b
    }
}

/// Merges one scalar field under first-non-blank-wins.
pub fn merge_optional_string(base: &mut Option<String>, incoming: Option<String>)
    ensures
        final(base).deep_view() == merge_text(old(base).deep_view(), incoming.deep_view()),
{
    let base_empty = match base {
        Some(b) => blank(b.as_str()),
        None => true,
    };
    if base_empty {
        match incoming {
            Some(v) => {
                if !blank(v.as_str()) {
                    *base = Some(v);
                }
            },
            None => {},
        }
    }
}

/// Merges one list field: the current items, then each incoming item that is
/// not blank and not yet present up to ASCII case.
pub fn merge_optional_vec(base: &mut Option<Vec<String>>, incoming: Option<Vec<String>>)
    ensures
        final(base).deep_view() == merge_list(old(base).deep_view(), incoming.deep_view()),
{
    let mut values = match base.take() {
        Some(v) => v,
        None => empty_list(),
    };
    let ghost start = values.deep_view();
    assert(start == list_or_empty(old(base).deep_view()));
    let inc = match incoming {
        Some(v) => v,
        None => empty_list(),
    };
    assert(inc.deep_view() == list_or_empty(incoming.deep_view()));
    let mut i: usize = 0;
    while i < inc.len()
        invariant
            i <= inc.len(),
            values.deep_view() == union_into(start, inc.deep_view().subrange(0, i as int)),
        decreases inc.len() - i,
    {
        let ghost pre = inc.deep_view().subrange(0, i + 1);
        assert(pre.drop_last() =~= inc.deep_view().subrange(0, i as int));
        assert(pre.last() == inc[i as int]@);
        let value = &inc[i];
        if !blank(value.as_str()) {
            let mut found = false;
            let mut j: usize = 0;
            while j < values.len()
                invariant
                    j <= values.len(),
                    found == exists|k: int|
                        0 <= k < j && eq_ignore_ascii_case(
                            #[trigger] values.deep_view()[k],
                            value@,
                        ),
                decreases values.len() - j,
            {
                if same_ignoring_ascii_case(values[j].as_str(), value.as_str()) {
                    found = true;
                }
                assert(values.deep_view()[j as int] == values[j as int]@);
                j = j + 1;
            }
            if !found {
                let ghost before = values.deep_view();
                values.push(value.clone());
                assert(values.deep_view() =~= before.push(value@));
            }
        }
        i = i + 1;
    }
    assert(inc.deep_view().subrange(0, inc.len() as int) =~= inc.deep_view());
    if values.len() == 0 {
        *base = None;
    } else {
        *base = Some(values);
    }
}

/// Merges `incoming` into `base`, field by field.
pub fn merge_summary(base: &mut ModSummary, incoming: ModSummary)
    ensures
        final(base)@ == merge_view(old(base)@, incoming@),
{
    let ghost b = base@;
    let ghost i = incoming@;
    merge_optional_string(&mut base.mod_id, incoming.mod_id);
    if blank(base.name.as_str()) && !blank(incoming.name.as_str()) {
        base.name = incoming.name;
    }
    merge_optional_string(&mut base.workshop_id, incoming.workshop_id);
    merge_optional_string(&mut base.author, incoming.author);
    merge_optional_string(&mut base.version, incoming.version);
    merge_optional_string(&mut base.version_min, incoming.version_min);
    merge_optional_string(&mut base.version_max, incoming.version_max);
    merge_optional_string(&mut base.install_date, incoming.install_date);
    merge_optional_string(&mut base.url, incoming.url);
    merge_optional_vec(&mut base.requires, incoming.requires);
    merge_optional_vec(&mut base.dependencies, incoming.dependencies);
    merge_optional_vec(&mut base.load_after, incoming.load_after);
    merge_optional_vec(&mut base.load_before, incoming.load_before);
    merge_optional_vec(&mut base.incompatible, incoming.incompatible);
    merge_optional_vec(&mut base.packs, incoming.packs);
    merge_optional_vec(&mut base.tiledefs, incoming.tiledefs);
    merge_optional_vec(&mut base.soundbanks, incoming.soundbanks);
    merge_optional_string(&mut base.worldmap, incoming.worldmap);
    merge_optional_string(&mut base.icon, incoming.icon);
    merge_optional_string(&mut base.preview_image_path, incoming.preview_image_path);
    merge_optional_vec(&mut base.poster_image_paths, incoming.poster_image_paths);
    merge_optional_string(&mut base.description, incoming.description);
    merge_optional_string(&mut base.mod_info_path, incoming.mod_info_path);
    assert(base@ =~= merge_view(b, i));
}

} // verus!

verus! {

/// The identity of an entry: its lower-cased trimmed name and lower-cased id;
/// none where the id is blank or the trimmed name is empty.
pub open spec fn identity_key(m: ModSummaryView) -> Option<(Text, Text)> {
    let id = match m.mod_id {
        Some(x) => x,
        None => Seq::<char>::empty(),
    };
    let name = trim(m.name);
    if is_blank(id) || name.len() == 0 {
        None
    } else {
        Some((lower_of(name), lower_of(id)))
    }
}

/// The first position in `acc` of an entry with identity `k`, or -1.
pub open spec fn find_identity(acc: Seq<ModSummaryView>, k: (Text, Text)) -> int
    decreases acc.len(),
{
    if acc.len() == 0 {
        -1
    } else {
        let f = find_identity(acc.drop_last(), k);
        if f >= 0 {
            f
        } else if identity_key(acc.last()) == Some(k) {
            acc.len() - 1
        } else {
            -1
        }
    }
}

/// The catalog that a list of descriptors makes, in encounter order: an entry
/// with an identity is merged into the first earlier entry with the same
/// identity; any other entry stands alone.
pub open spec fn merge_all(s: Seq<ModSummaryView>) -> Seq<ModSummaryView>
    decreases s.len(),
{
    if s.len() == 0 {
        seq![]
    } else {
        let acc = merge_all(s.drop_last());
        let d = s.last();
        match identity_key(d) {
            None => acc.push(d),
            Some(k) => {
                let f = find_identity(acc, k);
                if f >= 0 {
                    acc.update(f, merge_view(acc[f], d))
                } else {
                    acc.push(d)
                }
            },
        }
    }
}

pub open spec fn views(v: Seq<ModSummary>) -> Seq<ModSummaryView> {
    v.map_values(|m: ModSummary| m@)
}

proof fn lemma_find_identity(acc: Seq<ModSummaryView>, k: (Text, Text), i: int)
    requires
        0 <= i <= acc.len(),
        forall|j: int| 0 <= j < i ==> identity_key(#[trigger] acc[j]) != Some(k),
        i == acc.len() || identity_key(acc[i]) == Some(k),
    ensures
        find_identity(acc, k) == if i == acc.len() {
            -1
        } else {
            i
        },
    decreases acc.len(),
{
    if acc.len() > 0 {
        if i == acc.len() {
            lemma_find_identity(acc.drop_last(), k, i - 1);
            assert(identity_key(acc[i - 1]) != Some(k));
        } else if i < acc.len() - 1 {
            lemma_find_identity(acc.drop_last(), k, i);
        } else {
            lemma_find_identity(acc.drop_last(), k, i);
        }
    }
}

/// Merging into an entry that has an identity keeps that identity.
pub proof fn lemma_merge_keeps_identity(b: ModSummaryView, i: ModSummaryView)
    requires
        identity_key(b) is Some,
    ensures
        identity_key(merge_view(b, i)) == identity_key(b),
{
}

/// The identity of an entry, computed.
pub fn entry_identity(m: &ModSummary) -> (r: Option<(String, String)>)
    ensures
        match r {
            Some((a, b)) => identity_key(m@) == Some((a@, b@)),
            None => identity_key(m@) is None,
        },
{
    let id_blank = match &m.mod_id {
        Some(x) => blank(x.as_str()),
        None => true,
    };
    proof {
        if m.mod_id is None {
            assert(trim(Seq::<char>::empty()) =~= Seq::<char>::empty());
        }
    }
    if id_blank {
        return None;
    }
    let name = trim_string(m.name.as_str());
    if name.unicode_len() == 0 {
        return None;
    }
    let id = match &m.mod_id {
        Some(x) => lowercase(x.as_str()),
        None => lowercase(""),
    };
    Some((lowercase(name.as_str()), id))
}

fn same_identity(a: &(String, String), b: &(String, String)) -> (r: bool)
    ensures
        r == (a.0@ == b.0@ && a.1@ == b.1@),
{
    a.0 == b.0 && a.1 == b.1
}

/// Deduplicates parsed descriptors into catalog entries, as `merge_all`
/// describes it.
pub fn merge_catalog(summaries: Vec<ModSummary>) -> (r: Vec<ModSummary>)
    ensures
        views(r@) == merge_all(views(summaries@)),
{
    let ghost input = views(summaries@);
    let mut rest = summaries;
    let mut acc: Vec<ModSummary> = Vec::new();
    let mut keys: Vec<Option<(String, String)>> = Vec::new();
    let ghost done: int = 0;
    assert(input.subrange(0, 0) =~= Seq::<ModSummaryView>::empty());
    assert(views(acc@) =~= Seq::<ModSummaryView>::empty());
    while rest.len() > 0
        invariant
            0 <= done <= input.len(),
            views(rest@) == input.subrange(done, input.len() as int),
            views(acc@) == merge_all(input.subrange(0, done)),
            keys.len() == acc.len(),
            forall|j: int|
                0 <= j < acc.len() ==> match #[trigger] keys@[j] {
                    Some((a, b)) => identity_key(acc@[j]@) == Some((a@, b@)),
                    None => identity_key(acc@[j]@) is None,
                },
        decreases rest.len(),
    {
        let ghost old_rest = rest@;
        let ghost old_acc = views(acc@);
        let d = rest.remove(0);
        assert(views(rest@) =~= views(old_rest).drop_first());
        let ghost pre = input.subrange(0, done + 1);
        assert(pre.drop_last() =~= input.subrange(0, done));
        assert(pre.last() == d@) by {
            assert(views(old_rest)[0] == d@);
        }
        let key = entry_identity(&d);
        match key {
            None => {
                acc.push(d);
                keys.push(None);
                assert(views(acc@) =~= old_acc.push(pre.last()));
            },
            Some(k) => {
                let mut f: usize = 0;
                let mut hit = false;
                while f < acc.len() && !hit
                    invariant
                        f <= acc.len(),
                        keys.len() == acc.len(),
                        hit ==> f < acc.len() && identity_key(acc@[f as int]@) == identity_key(d@),
                        forall|j: int|
                            0 <= j < f && !(hit && j == f) ==> identity_key(acc@[j]@) != identity_key(
                                d@,
                            ),
                        forall|j: int|
                            0 <= j < acc.len() ==> match #[trigger] keys@[j] {
                                Some((a, b)) => identity_key(acc@[j]@) == Some((a@, b@)),
                                None => identity_key(acc@[j]@) is None,
                            },
                        identity_key(d@) == Some((k.0@, k.1@)),
                    decreases acc.len() - f + (if hit { 0int } else { 1int }),
                {
                    let matched = match &keys[f] {
                        Some(e) => same_identity(e, &k),
                        None => false,
                    };
                    if matched {
                        hit = true;
                    } else {
                        f = f + 1;
                    }
                }
                proof {
                    let kk = (k.0@, k.1@);
                    assert forall|j: int| 0 <= j < (if hit { f as int } else { acc.len() as int }) implies identity_key(
                        #[trigger] old_acc[j],
                    ) != Some(kk) by {
                        assert(old_acc[j] == acc@[j]@);
                    }
                    if hit {
                        assert(old_acc[f as int] == acc@[f as int]@);
                    }
                    lemma_find_identity(old_acc, kk, if hit { f as int } else { acc.len() as int });
                }
                if hit {
                    let mut existing = acc.remove(f);
                    merge_summary(&mut existing, d);
                    acc.insert(f, existing);
                    assert(views(acc@) =~= old_acc.update(f as int, merge_view(old_acc[f as int], pre.last())));
                    proof {
                        assert forall|j: int| 0 <= j < acc.len() implies match #[trigger] keys@[j] {
                            Some((a, b)) => identity_key(acc@[j]@) == Some((a@, b@)),
                            None => identity_key(acc@[j]@) is None,
                        } by {
                            if j == f {
                                lemma_merge_keeps_identity(old_acc[f as int], pre.last());
                            }
                        }
                    }
                } else {
                    acc.push(d);
                    keys.push(Some(k));
                    assert(views(acc@) =~= old_acc.push(pre.last()));
                }
            },
        }
        proof {
            done = done + 1;
        }
    }
    assert(input.subrange(0, input.len() as int) =~= input);
    acc
}

} // verus!

verus! {

/// No two items of `l` are equal up to ASCII case.
pub open spec fn distinct_ignoring_case(l: TextList) -> bool {
    forall|a: int, b: int|
        0 <= a < b < l.len() ==> !eq_ignore_ascii_case(#[trigger] l[a], #[trigger] l[b])
}

/// A list union adds no item that equals, up to ASCII case, an item already
/// there: a list without such duplicates stays without them.
pub proof fn lemma_union_keeps_distinct(acc: TextList, incoming: TextList)
    requires
        distinct_ignoring_case(acc),
    ensures
        distinct_ignoring_case(union_into(acc, incoming)),
    decreases incoming.len(),
{
    if incoming.len() > 0 {
        lemma_union_keeps_distinct(acc, incoming.drop_last());
        let a = union_into(acc, incoming.drop_last());
        let x = incoming.last();
        if !(is_blank(x) || contains_ignoring_case(a, x)) {
            let r = a.push(x);
            assert forall|p: int, q: int| 0 <= p < q < r.len() implies !eq_ignore_ascii_case(
                #[trigger] r[p],
                #[trigger] r[q],
            ) by {
                if q == a.len() {
                    assert(r[p] == a[p]);
                    if eq_ignore_ascii_case(a[p], x) {
                        assert(contains_ignoring_case(a, x));
                    }
                } else {
                    assert(r[p] == a[p] && r[q] == a[q]);
                }
            }
        }
    }
}

} // verus!
