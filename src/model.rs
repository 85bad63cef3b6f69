use vstd::prelude::*;

verus! {

/// Nested metadata attached to a catalog entry from outside: the shape of a
/// JSON value. A number is held as its JSON text. The fields of an object are
/// meant to have distinct keys (see `distinct_keys`), as in a JSON map.
pub enum Json {
    Null,
    Bool(bool),
    Number(String),
    Str(String),
    Array(Vec<Json>),
    Object(Vec<(String, Json)>),
}

/// No two fields of an object share a key.
pub open spec fn distinct_keys(es: Seq<(String, Json)>) -> bool {
    forall|a: int, b: int| 0 <= a < b < es.len() ==> (#[trigger] es[a]).0@ != (#[trigger] es[b]).0@
}

/// One entry that depends on another one.
#[derive(Clone, Debug)]
pub struct RequiredByInfo {
    pub mod_id: String,
    pub name: String,
}

pub struct RequiredByView {
    pub mod_id: Seq<char>,
    pub name: Seq<char>,
}

impl View for RequiredByInfo {
    type V = RequiredByView;

    open spec fn view(&self) -> RequiredByView {
        RequiredByView { mod_id: self.mod_id@, name: self.name@ }
    }
}

/// One mod of the catalog: parsed from one descriptor, or merged from several.
pub struct ModSummary {
    pub id: String,
    pub mod_id: Option<String>,
    pub name: String,
    pub workshop_id: Option<String>,
    pub author: Option<String>,
    pub hidden: Option<bool>,
    pub favorite: Option<bool>,
    pub version: Option<String>,
    pub version_min: Option<String>,
    pub version_max: Option<String>,
    pub install_date: Option<String>,
    pub url: Option<String>,
    pub requires: Option<Vec<String>>,
    pub dependencies: Option<Vec<String>>,
    pub load_after: Option<Vec<String>>,
    pub load_before: Option<Vec<String>>,
    pub incompatible: Option<Vec<String>>,
    pub packs: Option<Vec<String>>,
    pub tiledefs: Option<Vec<String>>,
    pub soundbanks: Option<Vec<String>>,
    pub worldmap: Option<String>,
    pub icon: Option<String>,
    pub preview_image_path: Option<String>,
    pub poster_image_paths: Option<Vec<String>>,
    pub description: Option<String>,
    pub mod_info_path: Option<String>,
    pub required_by: Option<Vec<RequiredByInfo>>,
    pub workshop: Option<Json>,
}

pub type Text = Seq<char>;

pub type TextList = Seq<Seq<char>>;

pub struct ModSummaryView {
    pub id: Text,
    pub mod_id: Option<Text>,
    pub name: Text,
    pub workshop_id: Option<Text>,
    pub author: Option<Text>,
    pub hidden: Option<bool>,
    pub favorite: Option<bool>,
    pub version: Option<Text>,
    pub version_min: Option<Text>,
    pub version_max: Option<Text>,
    pub install_date: Option<Text>,
    pub url: Option<Text>,
    pub requires: Option<TextList>,
    pub dependencies: Option<TextList>,
    pub load_after: Option<TextList>,
    pub load_before: Option<TextList>,
    pub incompatible: Option<TextList>,
    pub packs: Option<TextList>,
    pub tiledefs: Option<TextList>,
    pub soundbanks: Option<TextList>,
    pub worldmap: Option<Text>,
    pub icon: Option<Text>,
    pub preview_image_path: Option<Text>,
    pub poster_image_paths: Option<TextList>,
    pub description: Option<Text>,
    pub mod_info_path: Option<Text>,
    pub required_by: Option<Seq<RequiredByView>>,
    pub workshop: Option<Json>,
}

pub open spec fn required_by_view(v: Option<Vec<RequiredByInfo>>) -> Option<Seq<RequiredByView>> {
    match v {
        Some(list) => Some(list@.map_values(|r: RequiredByInfo| r@)),
        None => None,
    }
}

impl View for ModSummary {
    type V = ModSummaryView;

    open spec fn view(&self) -> ModSummaryView {
        ModSummaryView {
            id: self.id@,
            mod_id: self.mod_id.deep_view(),
            name: self.name@,
            workshop_id: self.workshop_id.deep_view(),
            author: self.author.deep_view(),
            hidden: self.hidden,
            favorite: self.favorite,
            version: self.version.deep_view(),
            version_min: self.version_min.deep_view(),
            version_max: self.version_max.deep_view(),
            install_date: self.install_date.deep_view(),
            url: self.url.deep_view(),
            requires: self.requires.deep_view(),
            dependencies: self.dependencies.deep_view(),
            load_after: self.load_after.deep_view(),
            load_before: self.load_before.deep_view(),
            incompatible: self.incompatible.deep_view(),
            packs: self.packs.deep_view(),
            tiledefs: self.tiledefs.deep_view(),
            soundbanks: self.soundbanks.deep_view(),
            worldmap: self.worldmap.deep_view(),
            icon: self.icon.deep_view(),
            preview_image_path: self.preview_image_path.deep_view(),
            poster_image_paths: self.poster_image_paths.deep_view(),
            description: self.description.deep_view(),
            mod_info_path: self.mod_info_path.deep_view(),
            required_by: required_by_view(self.required_by),
            workshop: self.workshop,
        }
    }
}

} // verus!
