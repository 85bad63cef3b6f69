use vstd::prelude::*;

use crate::model::{ModSummary, ModSummaryView, Text, TextList};
use crate::text::{
    chars_vec, empty_list, extend_list, owned, list_items, lower_of, lowercase, parse_list, string_of,
    trim, trim_bounds,
};

verus! {

/// The field that a descriptor key stands for, after its aliases are folded.
#[derive(Clone, Copy, Debug, PartialEq, Eq)]
pub enum FieldKind {
    ModId,
    Name,
    WorkshopId,
    Author,
    Version,
    VersionMin,
    VersionMax,
    Url,
    Description,
    Requires,
    Dependencies,
    LoadAfter,
    LoadBefore,
    Incompatible,
    Packs,
    Tiledefs,
    Soundbanks,
    Worldmap,
    Icon,
    Preview,
    Posters,
}

/// The lookup table from a lower-cased key to its field.
pub open spec fn field_of_key(k: Text) -> Option<FieldKind> {
    if k == "id"@ || k == "modid"@ {
        Some(FieldKind::ModId)
    } else if k == "name"@ {
        Some(FieldKind::Name)
    } else if k == "workshopid"@ {
        Some(FieldKind::WorkshopId)
    } else if k == "author"@ || k == "authors"@ {
        Some(FieldKind::Author)
    } else if k == "version"@ || k == "modversion"@ {
        Some(FieldKind::Version)
    } else if k == "versionmin"@ || k == "version_min"@ {
        Some(FieldKind::VersionMin)
    } else if k == "versionmax"@ || k == "version_max"@ {
        Some(FieldKind::VersionMax)
    } else if k == "url"@ {
        Some(FieldKind::Url)
    } else if k == "description"@ {
        Some(FieldKind::Description)
    } else if k == "require"@ || k == "requires"@ {
        Some(FieldKind::Requires)
    } else if k == "depend"@ || k == "dependencies"@ {
        Some(FieldKind::Dependencies)
    } else if k == "loadafter"@ {
        Some(FieldKind::LoadAfter)
    } else if k == "loadbefore"@ {
        Some(FieldKind::LoadBefore)
    } else if k == "incompatible"@ {
        Some(FieldKind::Incompatible)
    } else if k == "pack"@ || k == "packs"@ {
        Some(FieldKind::Packs)
    } else if k == "tiledef"@ || k == "tiledefs"@ {
        Some(FieldKind::Tiledefs)
    } else if k == "soundbank"@ || k == "soundbanks"@ {
        Some(FieldKind::Soundbanks)
    } else if k == "worldmap"@ {
        Some(FieldKind::Worldmap)
    } else if k == "icon"@ || k == "iconfile"@ {
        Some(FieldKind::Icon)
    } else if k == "preview"@ || k == "previewimage"@ || k == "preview_image"@ {
        Some(FieldKind::Preview)
    } else if k == "poster"@ || k == "posters"@ {
        Some(FieldKind::Posters)
    } else {
        None
    }
}

/// Equality of two texts.
pub fn text_eq(a: &str, b: &str) -> (r: bool)
    ensures
        r == (a@ == b@),
{
    let n = a.unicode_len();
    if n != b.unicode_len() {
        return false;
    }
    let mut i: usize = 0;
    while i < n
        invariant
            n == a@.len(),
            n == b@.len(),
            i <= n,
            forall|k: int| 0 <= k < i ==> a@[k] == b@[k],
        decreases n - i,
    {
        if a.get_char(i) != b.get_char(i) {
            return false;
        }
        i = i + 1;
    }
    assert(a@ =~= b@);
    true
}

/// The field that a lower-cased key stands for, if any.
pub fn field_for_key(k: &str) -> (r: Option<FieldKind>)
    ensures
        r == field_of_key(k@),
{
    if text_eq(k, "id") || text_eq(k, "modid") {
        Some(FieldKind::ModId)
    } else if text_eq(k, "name") {
        Some(FieldKind::Name)
    } else if text_eq(k, "workshopid") {
        Some(FieldKind::WorkshopId)
    } else if text_eq(k, "author") || text_eq(k, "authors") {
        Some(FieldKind::Author)
    } else if text_eq(k, "version") || text_eq(k, "modversion") {
        Some(FieldKind::Version)
    } else if text_eq(k, "versionmin") || text_eq(k, "version_min") {
        Some(FieldKind::VersionMin)
    } else if text_eq(k, "versionmax") || text_eq(k, "version_max") {
        Some(FieldKind::VersionMax)
    } else if text_eq(k, "url") {
        Some(FieldKind::Url)
    } else if text_eq(k, "description") {
        Some(FieldKind::Description)
    } else if text_eq(k, "require") || text_eq(k, "requires") {
        Some(FieldKind::Requires)
    } else if text_eq(k, "depend") || text_eq(k, "dependencies") {
        Some(FieldKind::Dependencies)
    } else if text_eq(k, "loadafter") {
        Some(FieldKind::LoadAfter)
    } else if text_eq(k, "loadbefore") {
        Some(FieldKind::LoadBefore)
    } else if text_eq(k, "incompatible") {
        Some(FieldKind::Incompatible)
    } else if text_eq(k, "pack") || text_eq(k, "packs") {
        Some(FieldKind::Packs)
    } else if text_eq(k, "tiledef") || text_eq(k, "tiledefs") {
        Some(FieldKind::Tiledefs)
    } else if text_eq(k, "soundbank") || text_eq(k, "soundbanks") {
        Some(FieldKind::Soundbanks)
    } else if text_eq(k, "worldmap") {
        Some(FieldKind::Worldmap)
    } else if text_eq(k, "icon") || text_eq(k, "iconfile") {
        Some(FieldKind::Icon)
    } else if text_eq(k, "preview") || text_eq(k, "previewimage") || text_eq(k, "preview_image") {
        Some(FieldKind::Preview)
    } else if text_eq(k, "poster") || text_eq(k, "posters") {
        Some(FieldKind::Posters)
    } else {
        None
    }
}

} // verus!

verus! {

/// What the lines of one descriptor set, before image references are looked
/// up on disk and before the fall-backs for name and id are applied.
pub struct DescriptorFields {
    pub mod_id: Option<String>,
    pub name: Option<String>,
    pub workshop_id: Option<String>,
    pub author: Option<String>,
    pub version: Option<String>,
    pub version_min: Option<String>,
    pub version_max: Option<String>,
    pub url: Option<String>,
    pub description: Option<String>,
    pub requires: Vec<String>,
    pub dependencies: Vec<String>,
    pub load_after: Vec<String>,
    pub load_before: Vec<String>,
    pub incompatible: Vec<String>,
    pub packs: Vec<String>,
    pub tiledefs: Vec<String>,
    pub soundbanks: Vec<String>,
    pub worldmap: Option<String>,
    pub icon_ref: Option<String>,
    pub preview_ref: Option<String>,
    pub poster_refs: Vec<String>,
}

pub struct FieldsView {
    pub mod_id: Option<Text>,
    pub name: Option<Text>,
    pub workshop_id: Option<Text>,
    pub author: Option<Text>,
    pub version: Option<Text>,
    pub version_min: Option<Text>,
    pub version_max: Option<Text>,
    pub url: Option<Text>,
    pub description: Option<Text>,
    pub requires: TextList,
    pub dependencies: TextList,
    pub load_after: TextList,
    pub load_before: TextList,
    pub incompatible: TextList,
    pub packs: TextList,
    pub tiledefs: TextList,
    pub soundbanks: TextList,
    pub worldmap: Option<Text>,
    pub icon_ref: Option<Text>,
    pub preview_ref: Option<Text>,
    pub poster_refs: TextList,
}

impl View for DescriptorFields {
    type V = FieldsView;

    open spec fn view(&self) -> FieldsView {
        FieldsView {
            mod_id: self.mod_id.deep_view(),
            name: self.name.deep_view(),
            workshop_id: self.workshop_id.deep_view(),
            author: self.author.deep_view(),
            version: self.version.deep_view(),
            version_min: self.version_min.deep_view(),
            version_max: self.version_max.deep_view(),
            url: self.url.deep_view(),
            description: self.description.deep_view(),
            requires: self.requires.deep_view(),
            dependencies: self.dependencies.deep_view(),
            load_after: self.load_after.deep_view(),
            load_before: self.load_before.deep_view(),
            incompatible: self.incompatible.deep_view(),
            packs: self.packs.deep_view(),
            tiledefs: self.tiledefs.deep_view(),
            soundbanks: self.soundbanks.deep_view(),
            worldmap: self.worldmap.deep_view(),
            icon_ref: self.icon_ref.deep_view(),
            preview_ref: self.preview_ref.deep_view(),
            poster_refs: self.poster_refs.deep_view(),
        }
    }
}

pub open spec fn no_fields() -> FieldsView {
    FieldsView {
        mod_id: None,
        name: None,
        workshop_id: None,
        author: None,
        version: None,
        version_min: None,
        version_max: None,
        url: None,
        description: None,
        requires: seq![],
        dependencies: seq![],
        load_after: seq![],
        load_before: seq![],
        incompatible: seq![],
        packs: seq![],
        tiledefs: seq![],
        soundbanks: seq![],
        worldmap: None,
        icon_ref: None,
        preview_ref: None,
        poster_refs: seq![],
    }
}

/// A scalar field takes the latest value; a list field gains the items of the value.
pub open spec fn assign(m: FieldsView, f: FieldKind, v: Text) -> FieldsView {
    match f {
        FieldKind::ModId => FieldsView { mod_id: Some(v), ..m },
        FieldKind::Name => FieldsView { name: Some(v), ..m },
        FieldKind::WorkshopId => FieldsView { workshop_id: Some(v), ..m },
        FieldKind::Author => FieldsView { author: Some(v), ..m },
        FieldKind::Version => FieldsView { version: Some(v), ..m },
        FieldKind::VersionMin => FieldsView { version_min: Some(v), ..m },
        FieldKind::VersionMax => FieldsView { version_max: Some(v), ..m },
        FieldKind::Url => FieldsView { url: Some(v), ..m },
        FieldKind::Description => FieldsView { description: Some(v), ..m },
        FieldKind::Requires => FieldsView { requires: m.requires + list_items(v), ..m },
        FieldKind::Dependencies => FieldsView { dependencies: m.dependencies + list_items(v), ..m },
        FieldKind::LoadAfter => FieldsView { load_after: m.load_after + list_items(v), ..m },
        FieldKind::LoadBefore => FieldsView { load_before: m.load_before + list_items(v), ..m },
        FieldKind::Incompatible => FieldsView { incompatible: m.incompatible + list_items(v), ..m },
        FieldKind::Packs => FieldsView { packs: m.packs + list_items(v), ..m },
        FieldKind::Tiledefs => FieldsView { tiledefs: m.tiledefs + list_items(v), ..m },
        FieldKind::Soundbanks => FieldsView { soundbanks: m.soundbanks + list_items(v), ..m },
        FieldKind::Worldmap => FieldsView { worldmap: Some(v), ..m },
        FieldKind::Icon => FieldsView { icon_ref: Some(v), ..m },
        FieldKind::Preview => FieldsView { preview_ref: Some(v), ..m },
        FieldKind::Posters => FieldsView { poster_refs: m.poster_refs + list_items(v), ..m },
    }
}

/// A trimmed line that carries nothing: empty, or a comment.
pub open spec fn is_comment(t: Text) -> bool {
    t.len() == 0 || t[0] == '#' || t[0] == ';' || (t.len() >= 2 && t[0] == '/' && t[1] == '/')
}

/// `e` is the position of the first `=` of `t`.
pub open spec fn first_eq(t: Text, e: int) -> bool {
    0 <= e < t.len() && t[e] == '=' && forall|j: int| 0 <= j < e ==> t[j] != '='
}

/// The lower-cased key and the value of a line, where it has both.
pub open spec fn line_entry(line: Text) -> Option<(Text, Text)> {
    let t = trim(line);
    if is_comment(t) || !(exists|e: int| first_eq(t, e)) {
        None
    } else {
        let e = choose|e: int| first_eq(t, e);
        let value = trim(t.subrange(e + 1, t.len() as int));
        if value.len() == 0 {
            None
        } else {
            Some((lower_of(trim(t.subrange(0, e))), value))
        }
    }
}

pub open spec fn apply_line(m: FieldsView, line: Text) -> FieldsView {
    match line_entry(line) {
        Some((k, v)) => match field_of_key(k) {
            Some(f) => assign(m, f, v),
            None => m,
        },
        None => m,
    }
}

/// The lines of a text, split at line feeds.
pub open spec fn lines_of(s: Text) -> TextList
    decreases s.len(),
{
    if s.len() == 0 {
        seq![Seq::<char>::empty()]
    } else {
        let rest = lines_of(s.drop_last());
        if s.last() == '\n' {
            rest.push(Seq::<char>::empty())
        } else {
            rest.update(rest.len() - 1, rest.last().push(s.last()))
        }
    }
}

pub open spec fn fields_after(lines: TextList) -> FieldsView
    decreases lines.len(),
{
    if lines.len() == 0 {
        no_fields()
    } else {
        apply_line(fields_after(lines.drop_last()), lines.last())
    }
}

/// The fields that a descriptor's text sets, line by line in order.
pub open spec fn parse_fields(content: Text) -> FieldsView {
    fields_after(lines_of(content))
}

pub fn new_fields() -> (r: DescriptorFields)
    ensures
        r@ == no_fields(),
{
    let r = DescriptorFields {
        mod_id: None,
        name: None,
        workshop_id: None,
        author: None,
        version: None,
        version_min: None,
        version_max: None,
        url: None,
        description: None,
        requires: empty_list(),
        dependencies: empty_list(),
        load_after: empty_list(),
        load_before: empty_list(),
        incompatible: empty_list(),
        packs: empty_list(),
        tiledefs: empty_list(),
        soundbanks: empty_list(),
        worldmap: None,
        icon_ref: None,
        preview_ref: None,
        poster_refs: empty_list(),
    };
    assert(r@ =~= no_fields());
    r
}

pub fn assign_field(fields: &mut DescriptorFields, f: FieldKind, value: String)
    ensures
        final(fields)@ == assign(old(fields)@, f, value@),
{
    match f {
        FieldKind::ModId => fields.mod_id = Some(value),
        FieldKind::Name => fields.name = Some(value),
        FieldKind::WorkshopId => fields.workshop_id = Some(value),
        FieldKind::Author => fields.author = Some(value),
        FieldKind::Version => fields.version = Some(value),
        FieldKind::VersionMin => fields.version_min = Some(value),
        FieldKind::VersionMax => fields.version_max = Some(value),
        FieldKind::Url => fields.url = Some(value),
        FieldKind::Description => fields.description = Some(value),
        FieldKind::Requires => extend_list(&mut fields.requires, &parse_list(value.as_str())),
        FieldKind::Dependencies => extend_list(
            &mut fields.dependencies,
            &parse_list(value.as_str()),
        ),
        FieldKind::LoadAfter => extend_list(&mut fields.load_after, &parse_list(value.as_str())),
        FieldKind::LoadBefore => extend_list(&mut fields.load_before, &parse_list(value.as_str())),
        FieldKind::Incompatible => extend_list(
            &mut fields.incompatible,
            &parse_list(value.as_str()),
        ),
        FieldKind::Packs => extend_list(&mut fields.packs, &parse_list(value.as_str())),
        FieldKind::Tiledefs => extend_list(&mut fields.tiledefs, &parse_list(value.as_str())),
        FieldKind::Soundbanks => extend_list(&mut fields.soundbanks, &parse_list(value.as_str())),
        FieldKind::Worldmap => fields.worldmap = Some(value),
        FieldKind::Icon => fields.icon_ref = Some(value),
        FieldKind::Preview => fields.preview_ref = Some(value),
        FieldKind::Posters => extend_list(&mut fields.poster_refs, &parse_list(value.as_str())),
    }
    assert(fields@ =~= assign(old(fields)@, f, value@));
}

/// Applies the line `v[start..end]`.
pub fn apply_line_chars(fields: &mut DescriptorFields, v: &Vec<char>, start: usize, end: usize)
    requires
        start <= end <= v.len(),
    ensures
        final(fields)@ == apply_line(old(fields)@, v@.subrange(start as int, end as int)),
{
    let ghost line = v@.subrange(start as int, end as int);
    let (lo, hi) = trim_bounds(v, start, end);
    let ghost t = v@.subrange(lo as int, hi as int);
    assert(t == trim(line));
    if lo == hi || v[lo] == '#' || v[lo] == ';' || (hi - lo >= 2 && v[lo] == '/' && v[lo + 1]
        == '/') {
        assert(is_comment(t));
        return ;
    }
    assert(!is_comment(t));
    let mut e = lo;
    while e < hi && v[e] != '='
        invariant
            lo <= e <= hi <= v.len(),
            forall|j: int| lo <= j < e ==> v@[j] != '=',
        decreases hi - e,
    {
        e = e + 1;
    }
    if e == hi {
        assert(!(exists|x: int| first_eq(t, x))) by {
            if exists|x: int| first_eq(t, x) {
                let x = choose|x: int| first_eq(t, x);
                assert(v@[lo + x] == '=');
            }
        }
        return ;
    }
    let ghost pos = e - lo;
    assert(first_eq(t, pos as int));
    assert((choose|x: int| first_eq(t, x)) == pos) by {
        let x = choose|x: int| first_eq(t, x);
        if x < pos {
            assert(v@[lo + x] == '=');
        } else if x > pos {
            assert(t[pos as int] == '=');
        }
    }
    assert(t.subrange(pos + 1, t.len() as int) == v@.subrange(e + 1, hi as int));
    assert(t.subrange(0, pos as int) == v@.subrange(lo as int, e as int));
    let (vlo, vhi) = trim_bounds(v, e + 1, hi);
    if vlo == vhi {
        return ;
    }
    let (klo, khi) = trim_bounds(v, lo, e);
    let raw_key = string_of(v, klo, khi);
    let key = lowercase(raw_key.as_str());
    let value = string_of(v, vlo, vhi);
    match field_for_key(key.as_str()) {
        Some(f) => assign_field(fields, f, value),
        None => {},
    }
}

proof fn lemma_lines_len(s: Text)
    ensures
        lines_of(s).len() >= 1,
    decreases s.len(),
{
    if s.len() > 0 {
        lemma_lines_len(s.drop_last());
    }
}

/// Reads the fields that a descriptor's text sets. Comment lines, lines
/// without `=`, empty values and unknown keys are passed over.
pub fn parse_descriptor(content: &str) -> (r: DescriptorFields)
    ensures
        r@ == parse_fields(content@),
{
    let v = chars_vec(content);
    let n = v.len();
    let mut fields = new_fields();
    let mut start: usize = 0;
    let mut i: usize = 0;
    proof {
        assert(v@.subrange(0, 0) =~= Seq::<char>::empty());
    }
    while i < n
        invariant
            n == v.len(),
            v@ == content@,
            start <= i <= n,
            lines_of(v@.subrange(0, i as int)).last() == v@.subrange(start as int, i as int),
            fields@ == fields_after(lines_of(v@.subrange(0, i as int)).drop_last()),
        decreases n - i,
    {
        let ghost ls = lines_of(v@.subrange(0, i as int));
        proof {
            lemma_lines_len(v@.subrange(0, i as int));
        }
        let ghost p = v@.subrange(0, i + 1);
        assert(p.drop_last() == v@.subrange(0, i as int));
        assert(p.last() == v@[i as int]);
        if v[i] == '\n' {
            apply_line_chars(&mut fields, &v, start, i);
            proof {
                let nl = lines_of(p);
                assert(nl == ls.push(Seq::<char>::empty()));
                assert(nl.drop_last() == ls);
                assert(ls.drop_last().push(ls.last()) == ls);
                assert(nl.last() == v@.subrange(i + 1, i + 1));
            }
            i = i + 1;
            start = i;
        } else {
            proof {
                let nl = lines_of(p);
                assert(nl == ls.update(ls.len() - 1, ls.last().push(v@[i as int])));
                assert(nl.drop_last() == ls.drop_last());
                assert(v@.subrange(start as int, i + 1) == v@.subrange(start as int, i as int).push(
                    v@[i as int],
                ));
            }
            i = i + 1;
        }
    }
    proof {
        lemma_lines_len(v@.subrange(0, n as int));
        let ls = lines_of(v@.subrange(0, n as int));
        assert(v@.subrange(0, n as int) == content@);
        assert(ls.drop_last().push(ls.last()) == ls);
    }
    apply_line_chars(&mut fields, &v, start, n);
    fields
}

} // verus!

verus! {

pub open spec fn nonempty_list(l: TextList) -> Option<TextList> {
    if l.len() == 0 {
        None
    } else {
        Some(l)
    }
}

/// The entry made of a descriptor's fields: the name falls back to the id and
/// then to "Unknown Mod"; the identity falls back to the workshop id and then
/// to the descriptor's own path; empty lists become absent.
pub open spec fn summary_of(
    f: FieldsView,
    info_path: Text,
    icon: Option<Text>,
    preview: Option<Text>,
    posters: TextList,
) -> ModSummaryView {
    ModSummaryView {
        id: match f.mod_id {
            Some(x) => x,
            None => match f.workshop_id {
                Some(w) => w,
                None => info_path,
            },
        },
        mod_id: f.mod_id,
        name: match f.name {
            Some(n) => n,
            None => match f.mod_id {
                Some(x) => x,
                None => "Unknown Mod"@,
            },
        },
        workshop_id: f.workshop_id,
        author: f.author,
        hidden: None,
        favorite: None,
        version: f.version,
        version_min: f.version_min,
        version_max: f.version_max,
        install_date: None,
        url: f.url,
        requires: nonempty_list(f.requires),
        dependencies: nonempty_list(f.dependencies),
        load_after: nonempty_list(f.load_after),
        load_before: nonempty_list(f.load_before),
        incompatible: nonempty_list(f.incompatible),
        packs: nonempty_list(f.packs),
        tiledefs: nonempty_list(f.tiledefs),
        soundbanks: nonempty_list(f.soundbanks),
        worldmap: f.worldmap,
        icon: icon,
        preview_image_path: preview,
        poster_image_paths: nonempty_list(posters),
        description: f.description,
        mod_info_path: Some(info_path),
        required_by: None,
        workshop: None,
    }
}

fn list_or_none(v: Vec<String>) -> (r: Option<Vec<String>>)
    ensures
        r.deep_view() == nonempty_list(v.deep_view()),
{
    if v.len() == 0 {
        None
    } else {
        Some(v)
    }
}

fn copy_opt(s: &Option<String>) -> (r: Option<String>)
    ensures
        r.deep_view() == s.deep_view(),
{
    match s {
        Some(x) => Some(x.clone()),
        None => None,
    }
}

/// Builds the entry of one descriptor from its fields, its path, and the image
/// paths that were found on disk for its references.
pub fn summary_from_fields(
    fields: DescriptorFields,
    info_path: &str,
    icon: Option<String>,
    preview: Option<String>,
    posters: Vec<String>,
) -> (r: ModSummary)
    ensures
        r@ == summary_of(
            fields@,
            info_path@,
            icon.deep_view(),
            preview.deep_view(),
            posters.deep_view(),
        ),
{
    let ghost f = fields@;
    let id = match &fields.mod_id {
        Some(x) => x.clone(),
        None => match &fields.workshop_id {
            Some(w) => w.clone(),
            None => owned(info_path),
        },
    };
    let name = match &fields.name {
        Some(n) => n.clone(),
        None => match &fields.mod_id {
            Some(x) => x.clone(),
            None => owned("Unknown Mod"),
        },
    };
    let r = ModSummary {
        id,
        mod_id: copy_opt(&fields.mod_id),
        name,
        workshop_id: fields.workshop_id,
        author: fields.author,
        hidden: None,
        favorite: None,
        version: fields.version,
        version_min: fields.version_min,
        version_max: fields.version_max,
        install_date: None,
        url: fields.url,
        requires: list_or_none(fields.requires),
        dependencies: list_or_none(fields.dependencies),
        load_after: list_or_none(fields.load_after),
        load_before: list_or_none(fields.load_before),
        incompatible: list_or_none(fields.incompatible),
        packs: list_or_none(fields.packs),
        tiledefs: list_or_none(fields.tiledefs),
        soundbanks: list_or_none(fields.soundbanks),
        worldmap: fields.worldmap,
        icon,
        preview_image_path: preview,
        poster_image_paths: list_or_none(posters),
        description: fields.description,
        mod_info_path: Some(owned(info_path)),
        required_by: None,
        workshop: None,
    };
    assert(r@ =~= summary_of(f, info_path@, icon.deep_view(), preview.deep_view(), posters.deep_view()));
    r
}

/// The path with every backslash written as a slash.
pub open spec fn slashed(s: Text) -> Text {
    s.map_values(|c: char| if c == '\\' { '/' } else { c })
}

pub open spec fn strip_slashes(s: Text) -> Text
    decreases s.len(),
{
    if s.len() > 0 && s[0] == '/' {
        strip_slashes(s.drop_first())
    } else {
        s
    }
}

/// The text up to its first slash.
pub open spec fn first_segment(s: Text) -> Text
    decreases s.len(),
{
    if s.len() == 0 || s[0] == '/' {
        Seq::<char>::empty()
    } else {
        seq![s[0]] + first_segment(s.drop_first())
    }
}

pub open spec fn all_digits(s: Text) -> bool {
    forall|i: int| 0 <= i < s.len() ==> '0' <= #[trigger] s[i] && s[i] <= '9'
}

/// `path` lies under `base` as whole path components: `base` is a prefix of
/// it that ends at a slash or at the end of `path`.
pub open spec fn under_base(b: Text, p: Text) -> bool {
    &&& b.len() <= p.len()
    &&& p.subrange(0, b.len() as int) == b
    &&& (b.len() == p.len() || (b.len() > 0 && b.last() == '/') || p[b.len() as int] == '/')
}

/// The workshop id that a descriptor's location gives: the first directory
/// below `base` when its name is made of digits only. Backslashes count as
/// slashes in both paths.
pub open spec fn workshop_id_from_path(base: Text, path: Text) -> Option<Text> {
    let b = slashed(base);
    let p = slashed(path);
    if under_base(b, p) {
        let seg = first_segment(strip_slashes(p.subrange(b.len() as int, p.len() as int)));
        if seg.len() > 0 && all_digits(seg) {
            Some(seg)
        } else {
            None
        }
    } else {
        None
    }
}

fn slashed_chars(s: &str) -> (r: Vec<char>)
    ensures
        r@ == slashed(s@),
{
    let v = chars_vec(s);
    let mut r: Vec<char> = Vec::new();
    let mut i: usize = 0;
    while i < v.len()
        invariant
            v@ == s@,
            i <= v.len(),
            r@ == slashed(s@).subrange(0, i as int),
        decreases v.len() - i,
    {
        if v[i] == '\\' {
            r.push('/');
        } else {
            r.push(v[i]);
        }
        assert(slashed(s@).subrange(0, i + 1) =~= slashed(s@).subrange(0, i as int).push(
            slashed(s@)[i as int],
        ));
        i = i + 1;
    }
    assert(slashed(s@).subrange(0, v.len() as int) =~= slashed(s@));
    r
}

proof fn lemma_strip_slashes(s: Text, j: int)
    requires
        0 <= j <= s.len(),
        forall|k: int| 0 <= k < j ==> s[k] == '/',
        j == s.len() || s[j] != '/',
    ensures
        strip_slashes(s) == s.subrange(j, s.len() as int),
    decreases j,
{
    if j > 0 {
        lemma_strip_slashes(s.drop_first(), j - 1);
        assert(s.drop_first().subrange(j - 1, s.len() - 1) == s.subrange(j, s.len() as int));
    } else {
        assert(s.subrange(0, s.len() as int) == s);
    }
}

proof fn lemma_first_segment(s: Text, k: int)
    requires
        0 <= k <= s.len(),
        forall|i: int| 0 <= i < k ==> s[i] != '/',
        k == s.len() || s[k] == '/',
    ensures
        first_segment(s) == s.subrange(0, k),
    decreases k,
{
    if k > 0 {
        lemma_first_segment(s.drop_first(), k - 1);
        assert(seq![s[0]] + s.drop_first().subrange(0, k - 1) =~= s.subrange(0, k));
    }
}

/// The workshop id that a descriptor's location below `base` gives, as
/// `workshop_id_from_path` describes it.
#[verifier::loop_isolation(false)]
pub fn derive_workshop_id(base: &str, mod_info_path: &str) -> (r: Option<String>)
    ensures
        r.deep_view() == workshop_id_from_path(base@, mod_info_path@),
{
    let b = slashed_chars(base);
    let p = slashed_chars(mod_info_path);
    if b.len() > p.len() {
        return None;
    }
    let mut i: usize = 0;
    while i < b.len()
        invariant
            b.len() <= p.len(),
            i <= b.len(),
            forall|k: int| 0 <= k < i ==> b@[k] == p@[k],
        decreases b.len() - i,
    {
        if b[i] != p[i] {
            assert(p@.subrange(0, b.len() as int)[i as int] != b@[i as int]);
            assert(p@.subrange(0, b.len() as int) != b@);
            return None;
        }
        i = i + 1;
    }
    assert(p@.subrange(0, b.len() as int) =~= b@);
    if !(b.len() == p.len() || (b.len() > 0 && b[b.len() - 1] == '/') || p[b.len()] == '/') {
        return None;
    }
    let ghost rest = p@.subrange(b.len() as int, p.len() as int);
    let mut j = b.len();
    while j < p.len() && p[j] == '/'
        invariant
            b.len() <= j <= p.len(),
            forall|k: int| b.len() <= k < j ==> p@[k] == '/',
        decreases p.len() - j,
    {
        j = j + 1;
    }
    proof {
        lemma_strip_slashes(rest, j - b.len());
        assert(rest.subrange(j - b.len(), rest.len() as int) =~= p@.subrange(j as int, p.len() as int));
    }
    let mut k = j;
    while k < p.len() && p[k] != '/'
        invariant
            j <= k <= p.len(),
            forall|x: int| j <= x < k ==> p@[x] != '/',
        decreases p.len() - k,
    {
        k = k + 1;
    }
    let ghost tail = p@.subrange(j as int, p.len() as int);
    proof {
        lemma_first_segment(tail, k - j);
        assert(tail.subrange(0, k - j) =~= p@.subrange(j as int, k as int));
    }
    if k == j {
        return None;
    }
    let mut d = j;
    while d < k
        invariant
            j <= d <= k <= p.len(),
            forall|x: int| j <= x < d ==> '0' <= p@[x] && p@[x] <= '9',
        decreases k - d,
    {
        if !('0' <= p[d] && p[d] <= '9') {
            let ghost seg = p@.subrange(j as int, k as int);
            assert(seg[d - j] == p@[d as int]);
            assert(!all_digits(seg));
            return None;
        }
        d = d + 1;
    }
    Some(string_of(&p, j, k))
}

/// Gives the entry the workshop id that its location implies, where it
/// declares none.
pub fn apply_workshop_fallback(summary: &mut ModSummary, base: &str)
    ensures
        old(summary).workshop_id is Some ==> final(summary)@ == old(summary)@,
        old(summary).workshop_id is None ==> final(summary)@ == (ModSummaryView {
            workshop_id: match old(summary)@.mod_info_path {
                Some(p) => workshop_id_from_path(base@, p),
                None => None,
            },
            ..old(summary)@
        }),
{
    if summary.workshop_id.is_none() {
        let derived = match &summary.mod_info_path {
            Some(p) => derive_workshop_id(base, p.as_str()),
            None => None,
        };
        summary.workshop_id = derived;
    }
}

} // verus!
