use honu_mods::deps::{build_catalog, link_required_by, normalize_mod_ref};
use honu_mods::descriptor::{
    apply_workshop_fallback, derive_workshop_id, parse_descriptor, summary_from_fields,
};
use honu_mods::merge::{merge_catalog, merge_optional_string, merge_optional_vec};
use honu_mods::model::ModSummary;
use honu_mods::text::parse_list;

fn entry(text: &str, path: &str) -> ModSummary {
    summary_from_fields(parse_descriptor(text), path, None, None, Vec::new())
}

fn strings(items: &[&str]) -> Vec<String> {
    items.iter().map(|s| s.to_string()).collect()
}

#[test]
fn parse_reads_aliases_and_skips_comments() {
    let text = "# comment\n// another\n; third\nname = My Mod\r\nmodid= core \nAUTHORS=Someone\nmodversion=1.2\nversion_min=41\nversionMax=42\nurl=http://x\ndescription=Hello = world\nnot a pair\nempty=\nworldmap=Muldraugh\nunknown=whatever\n";
    let m = entry(text, "/mods/core/mod.info");
    assert_eq!(m.name, "My Mod");
    assert_eq!(m.mod_id.as_deref(), Some("core"));
    assert_eq!(m.id, "core");
    assert_eq!(m.author.as_deref(), Some("Someone"));
    assert_eq!(m.version.as_deref(), Some("1.2"));
    assert_eq!(m.version_min.as_deref(), Some("41"));
    assert_eq!(m.version_max.as_deref(), Some("42"));
    assert_eq!(m.url.as_deref(), Some("http://x"));
    assert_eq!(m.description.as_deref(), Some("Hello = world"));
    assert_eq!(m.worldmap.as_deref(), Some("Muldraugh"));
    assert_eq!(m.mod_info_path.as_deref(), Some("/mods/core/mod.info"));
    assert!(m.requires.is_none());
    assert!(m.required_by.is_none());
    assert!(m.hidden.is_none());
}

#[test]
fn parse_lists_split_and_unquote() {
    let text = "id=a\nrequire=\"X\", 'Y';Z\nrequires= ,W,\nloadafter=B\nloadbefore=C\npack=p1;p2\ntiledef=t\nsoundbank=s\ndepend=D\nincompatible=Q\n";
    let m = entry(text, "/m/mod.info");
    assert_eq!(m.requires, Some(strings(&["X", "Y", "Z", "W"])));
    assert_eq!(m.dependencies, Some(strings(&["D"])));
    assert_eq!(m.load_after, Some(strings(&["B"])));
    assert_eq!(m.load_before, Some(strings(&["C"])));
    assert_eq!(m.incompatible, Some(strings(&["Q"])));
    assert_eq!(m.packs, Some(strings(&["p1", "p2"])));
    assert_eq!(m.tiledefs, Some(strings(&["t"])));
    assert_eq!(m.soundbanks, Some(strings(&["s"])));
}

#[test]
fn parse_list_keeps_one_quote_layer_only() {
    assert_eq!(parse_list("\"\"A\"\", 'B\""), strings(&["\"A\"", "'B\""]));
    assert_eq!(parse_list(";;, ,"), Vec::<String>::new());
    assert_eq!(parse_list("a\nb\rc"), strings(&["a", "b", "c"]));
}

#[test]
fn parse_falls_back_for_name_and_identity() {
    let only_id = entry("id=solo\n", "/p/mod.info");
    assert_eq!(only_id.name, "solo");
    assert_eq!(only_id.id, "solo");
    let nothing = entry("poster=a.png\n", "/q/mod.info");
    assert_eq!(nothing.name, "Unknown Mod");
    assert_eq!(nothing.id, "/q/mod.info");
    assert!(nothing.mod_id.is_none());
    let workshop_only = entry("workshopid=77\n", "/r/mod.info");
    assert_eq!(workshop_only.id, "77");
    assert_eq!(workshop_only.name, "Unknown Mod");
}

#[test]
fn parse_later_scalar_line_wins() {
    let m = entry("name=First\nname=Second\n", "/x/mod.info");
    assert_eq!(m.name, "Second");
}

#[test]
fn icon_that_was_not_found_is_absent() {
    let fields = parse_descriptor("id=a\nicon = missing.png\nposter=p1.png;p2.png\n");
    assert_eq!(fields.icon_ref.as_deref(), Some("missing.png"));
    assert_eq!(fields.poster_refs, strings(&["p1.png", "p2.png"]));
    let m = summary_from_fields(fields, "/base/a/mod.info", None, None, Vec::new());
    assert!(m.icon.is_none());
    assert!(m.poster_image_paths.is_none());
    let found = summary_from_fields(
        parse_descriptor("iconfile=i.png\n"),
        "/b/mod.info",
        Some("/b/i.png".to_string()),
        None,
        strings(&["/b/p.png"]),
    );
    assert_eq!(found.icon.as_deref(), Some("/b/i.png"));
    assert_eq!(found.poster_image_paths, Some(strings(&["/b/p.png"])));
}

#[test]
fn workshop_id_comes_from_numeric_folder() {
    assert_eq!(
        derive_workshop_id("/base", "/base/123456789/SomeMod/mod.info").as_deref(),
        Some("123456789")
    );
    assert_eq!(
        derive_workshop_id("C:\\base", "C:\\base\\\\42\\M\\mod.info").as_deref(),
        Some("42")
    );
    assert_eq!(derive_workshop_id("/base", "/base/abc/mod.info"), None);
    assert_eq!(derive_workshop_id("/base", "/other/1/mod.info"), None);
    assert_eq!(derive_workshop_id("/base", "/base"), None);
    assert_eq!(derive_workshop_id("/w", "/w2/3/mod.info"), None);
    assert_eq!(derive_workshop_id("/base/", "/base/12/x/mod.info").as_deref(), Some("12"));
}

#[test]
fn workshop_fallback_only_when_undeclared() {
    let mut m = entry("id=a\n", "/base/123456789/SomeMod/mod.info");
    apply_workshop_fallback(&mut m, "/base");
    assert_eq!(m.workshop_id.as_deref(), Some("123456789"));
    let mut declared = entry("id=a\nworkshopid=5\n", "/base/123456789/SomeMod/mod.info");
    apply_workshop_fallback(&mut declared, "/base");
    assert_eq!(declared.workshop_id.as_deref(), Some("5"));
}

#[test]
fn merge_fills_absent_version_in_either_order() {
    let d1 = || entry("name=A\nid=a\n", "/1/mod.info");
    let d2 = || entry("name=A\nid=a\nversion=1.0\n", "/2/mod.info");
    let forward = merge_catalog(vec![d1(), d2()]);
    assert_eq!(forward.len(), 1);
    assert_eq!(forward[0].version.as_deref(), Some("1.0"));
    let backward = merge_catalog(vec![d2(), d1()]);
    assert_eq!(backward.len(), 1);
    assert_eq!(backward[0].version.as_deref(), Some("1.0"));
}

#[test]
fn merge_first_non_blank_version_wins() {
    let d1 = || entry("name=A\nid=a\nversion=0.9\n", "/1/mod.info");
    let d2 = || entry("name=A\nid=a\nversion=1.0\n", "/2/mod.info");
    assert_eq!(merge_catalog(vec![d1(), d2()])[0].version.as_deref(), Some("0.9"));
    assert_eq!(merge_catalog(vec![d2(), d1()])[0].version.as_deref(), Some("1.0"));
}

#[test]
fn merge_identity_ignores_case_and_name_padding() {
    let a = entry("name=Alpha\nid=Core\n", "/1/mod.info");
    let b = entry("name= alpha \nid=core\nauthor=Z\n", "/2/mod.info");
    let c = entry("name=Beta\nid=core\n", "/3/mod.info");
    let merged = merge_catalog(vec![a, b, c]);
    assert_eq!(merged.len(), 2);
    assert_eq!(merged[0].name, "Alpha");
    assert_eq!(merged[0].author.as_deref(), Some("Z"));
    assert_eq!(merged[0].mod_info_path.as_deref(), Some("/1/mod.info"));
    assert_eq!(merged[1].name, "Beta");
}

#[test]
fn merge_never_joins_entries_without_id() {
    let a = entry("name=Same\n", "/1/mod.info");
    let b = entry("name=Same\n", "/2/mod.info");
    let merged = merge_catalog(vec![a, b]);
    assert_eq!(merged.len(), 2);
    assert_eq!(merged[0].id, "/1/mod.info");
    assert_eq!(merged[1].id, "/2/mod.info");
}

#[test]
fn list_union_dedups_ignoring_case() {
    let mut base = Some(strings(&["X"]));
    merge_optional_vec(&mut base, Some(strings(&["X", "x"])));
    assert_eq!(base, Some(strings(&["X"])));
    let mut other = Some(strings(&["a"]));
    merge_optional_vec(&mut other, Some(strings(&["B", " ", "b", "A", "c"])));
    assert_eq!(other, Some(strings(&["a", "B", "c"])));
    let mut none: Option<Vec<String>> = None;
    merge_optional_vec(&mut none, Some(strings(&["  "])));
    assert_eq!(none, None);
}

#[test]
fn scalar_merge_replaces_blank_only() {
    let mut blank = Some("  ".to_string());
    merge_optional_string(&mut blank, Some("v".to_string()));
    assert_eq!(blank.as_deref(), Some("v"));
    let mut set = Some("u".to_string());
    merge_optional_string(&mut set, Some("v".to_string()));
    assert_eq!(set.as_deref(), Some("u"));
    let mut none: Option<String> = None;
    merge_optional_string(&mut none, Some(" ".to_string()));
    assert_eq!(none, None);
}

#[test]
fn required_by_lists_dependents() {
    let a = entry("name=Core Mod\nid=core\n", "/a/mod.info");
    let b = entry("name=Addon\nid=addon\nrequire=core\n", "/b/mod.info");
    let out = link_required_by(vec![a, b]);
    let rb = out[0].required_by.as_ref().expect("core is required");
    assert_eq!(rb.len(), 1);
    assert_eq!(rb[0].mod_id, "addon");
    assert_eq!(rb[0].name, "Addon");
    assert!(out[1].required_by.is_none());
}

#[test]
fn required_by_excludes_self() {
    let a = entry("name=Loop\nid=loop\nrequire=loop;LOOP\n", "/a/mod.info");
    let out = link_required_by(vec![a]);
    assert!(out[0].required_by.is_none());
}

#[test]
fn required_by_includes_other_entry_with_same_id() {
    let a = entry("name=A\nid=core\n", "/a/mod.info");
    let b = entry("name=B\nid=core\nrequire=core\n", "/b/mod.info");
    let out = link_required_by(vec![a, b]);
    let rb = out[0].required_by.as_ref().expect("the other entry requires core");
    assert_eq!(rb.len(), 1);
    assert_eq!(rb[0].mod_id, "core");
    assert_eq!(rb[0].name, "B");
    assert!(out[1].required_by.is_none());
}

#[test]
fn required_by_sorted_by_name_and_deduped() {
    let core = entry("name=Core\nid=core\n", "/c/mod.info");
    let z = entry("name=zeta\nid=z\nrequire=\\core\ndepend=CORE\n", "/z/mod.info");
    let b = entry("name=Beta\nid=b\nrequire=\"core\"\n", "/b/mod.info");
    let a = entry("name=alpha\nid=a\ndepend=core\n", "/a/mod.info");
    let none = entry("name=Lone\nrequire=core\n", "/n/mod.info");
    let out = link_required_by(vec![core, z, b, a, none]);
    let rb = out[0].required_by.as_ref().expect("core is required");
    let ids: Vec<&str> = rb.iter().map(|r| r.mod_id.as_str()).collect();
    assert_eq!(ids, vec!["a", "b", "z"]);
}

#[test]
fn reference_normalization() {
    assert_eq!(normalize_mod_ref("  \"\\Core\" "), "Core");
    assert_eq!(normalize_mod_ref("\\\\x"), "\\x");
    assert_eq!(normalize_mod_ref("'y'"), "y");
}

#[test]
fn build_catalog_merges_then_links() {
    let a1 = entry("name=Core\nid=core\n", "/a1/mod.info");
    let a2 = entry("name=Core\nid=core\nversion=2\n", "/a2/mod.info");
    let b = entry("name=Addon\nid=addon\nrequires=core\n", "/b/mod.info");
    let out = build_catalog(vec![a1, b, a2]);
    assert_eq!(out.len(), 2);
    assert_eq!(out[0].version.as_deref(), Some("2"));
    assert_eq!(out[0].required_by.as_ref().map(|v| v.len()), Some(1));
}
