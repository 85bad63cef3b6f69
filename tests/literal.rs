use honu_mods::catalog::{composite_id_of, render_catalog};
use honu_mods::deps::link_required_by;
use honu_mods::descriptor::{parse_descriptor, summary_from_fields};
use honu_mods::enrich::{json_value_to_id, strip_workshop_descriptions, workshop_key_for_mod};
use honu_mods::lua::{lua_bool, lua_escape, lua_json, lua_key, lua_required_by_list, lua_string, lua_string_list};
use honu_mods::model::{Json, ModSummary, RequiredByInfo};

fn entry(text: &str, path: &str) -> ModSummary {
    summary_from_fields(parse_descriptor(text), path, None, None, Vec::new())
}

fn s(x: &str) -> String {
    x.to_string()
}

/// Reads a double-quoted literal back under the short-string escape rules.
fn read_back(lit: &str) -> Option<String> {
    let inner = lit.strip_prefix('"')?.strip_suffix('"')?;
    let mut out = String::new();
    let mut chars = inner.chars();
    while let Some(c) = chars.next() {
        match c {
            '\\' => match chars.next()? {
                '\\' => out.push('\\'),
                '"' => out.push('"'),
                'n' => out.push('\n'),
                'r' => out.push('\r'),
                't' => out.push('\t'),
                _ => return None,
            },
            '"' | '\n' | '\r' => return None,
            other => out.push(other),
        }
    }
    Some(out)
}

#[test]
fn escape_covers_the_five_characters() {
    assert_eq!(lua_escape("a\\b\"c\nd\re\tf"), "a\\\\b\\\"c\\nd\\re\\tf");
    assert_eq!(lua_escape("héllo ✓"), "héllo ✓");
    assert_eq!(lua_string(""), "\"\"");
}

#[test]
fn quoted_name_reads_back_exactly() {
    let name = "The \"Best\"\nMod\\ \t\r ünï";
    let lit = lua_string(name);
    assert_eq!(lit, "\"The \\\"Best\\\"\\nMod\\\\ \\t\\r ünï\"");
    assert_eq!(read_back(&lit).as_deref(), Some(name));
}

#[test]
fn keys_bare_or_bracketed() {
    assert_eq!(lua_key("title_2"), "title_2");
    assert_eq!(lua_key("_x"), "_x");
    assert_eq!(lua_key("  _x  "), "[\"  _x  \"]");
    assert_eq!(lua_key(" a"), "[\" a\"]");
    assert_eq!(lua_key(""), "[\"\"]");
    assert_eq!(lua_key("2nd"), "[\"2nd\"]");
    assert_eq!(lua_key(" has space "), "[\" has space \"]");
    assert_eq!(lua_key("   "), "[\"   \"]");
    assert_eq!(lua_key("é"), "[\"é\"]");
}

#[test]
fn booleans_and_lists() {
    assert_eq!(lua_bool(true), "true");
    assert_eq!(lua_bool(false), "false");
    assert_eq!(lua_string_list(&vec![]), "{}");
    assert_eq!(lua_string_list(&vec![s("a"), s("b\"")]), "{ \"a\", \"b\\\"\" }");
}

#[test]
fn required_by_list_skips_empty_requesters() {
    let list = vec![
        RequiredByInfo { mod_id: s(" a "), name: s("A") },
        RequiredByInfo { mod_id: s(" "), name: s(" ") },
        RequiredByInfo { mod_id: s(""), name: s("OnlyName") },
        RequiredByInfo { mod_id: s("onlyid"), name: s("") },
    ];
    assert_eq!(
        lua_required_by_list(&list),
        "{ { modId = \"a\", name = \"A\" }, { name = \"OnlyName\" }, { modId = \"onlyid\" } }"
    );
    assert_eq!(lua_required_by_list(&vec![]), "{}");
    assert_eq!(
        lua_required_by_list(&vec![RequiredByInfo { mod_id: s(""), name: s("") }]),
        "{  }"
    );
}

#[test]
fn nested_values_with_sorted_keys() {
    let value = Json::Object(vec![
        (s("zeta"), Json::Array(vec![Json::Number(s("1")), Json::Bool(false), Json::Null])),
        (s("alpha"), Json::Str(s("x\"y"))),
        (s("mid"), Json::Object(vec![])),
        (s("arr"), Json::Array(vec![])),
    ]);
    assert_eq!(
        lua_json(&value),
        "{ [\"alpha\"] = \"x\\\"y\", [\"arr\"] = {}, [\"mid\"] = {}, [\"zeta\"] = { 1, false, nil } }"
    );
    assert_eq!(lua_json(&Json::Number(s("2.5"))), "2.5");
}

#[test]
fn strip_removes_denied_keys_ignoring_case() {
    let value = Json::Object(vec![
        (s("Description"), Json::Str(s("long"))),
        (s("creator_url"), Json::Str(s("u"))),
        (s("TAGS"), Json::Array(vec![])),
        (s("subscriptions"), Json::Number(s("3"))),
    ]);
    match strip_workshop_descriptions(value) {
        Json::Object(fields) => {
            let keys: Vec<&str> = fields.iter().map(|f| f.0.as_str()).collect();
            assert_eq!(keys, vec!["creator_url", "subscriptions"]);
        }
        _ => panic!("an object stays an object"),
    }
    match strip_workshop_descriptions(Json::Str(s("description"))) {
        Json::Str(t) => assert_eq!(t, "description"),
        _ => panic!("a text stays a text"),
    }
}

#[test]
fn metadata_ids_from_text_or_number() {
    assert_eq!(json_value_to_id(&Json::Str(s("  12 "))).as_deref(), Some("12"));
    assert_eq!(json_value_to_id(&Json::Str(s("  "))), None);
    assert_eq!(json_value_to_id(&Json::Number(s("99"))).as_deref(), Some("99"));
    assert_eq!(json_value_to_id(&Json::Bool(true)), None);
}

#[test]
fn workshop_key_priority() {
    let mut m = entry("id=a\n", "/a/mod.info");
    m.workshop = Some(Json::Object(vec![
        (s("publishedfileid"), Json::Str(s("222"))),
        (s("fileid"), Json::Str(s(" "))),
    ]));
    assert_eq!(workshop_key_for_mod(&m).as_deref(), Some("222"));
    m.workshop = Some(Json::Object(vec![
        (s("publishedfileid"), Json::Str(s("222"))),
        (s("fileid"), Json::Number(s("111"))),
    ]));
    assert_eq!(workshop_key_for_mod(&m).as_deref(), Some("111"));
    m.workshop_id = Some(s(" 333 "));
    assert_eq!(workshop_key_for_mod(&m).as_deref(), Some("333"));
    m.workshop_id = None;
    m.workshop = Some(Json::Array(vec![]));
    assert_eq!(workshop_key_for_mod(&m), None);
}

#[test]
fn composite_id_escapes_and_joins_workshop_id() {
    let m = entry("id= core \nworkshopid=55\n", "/a/mod.info");
    assert_eq!(composite_id_of(&m), "\\core::55");
    let escaped = entry("id=\\core\n", "/a/mod.info");
    assert_eq!(composite_id_of(&escaped), "\\core");
    let no_id = entry("name=N\n", "/p/mod.info");
    assert_eq!(composite_id_of(&no_id), "\\/p/mod.info");
}

#[test]
fn catalog_document_exact() {
    let core = entry("name=Core \"Mod\"\nid=core\nauthor= Ann \nversion=1.0\nurl=http://u\nworldmap=Map\n", "/a/mod.info");
    let addon = entry("name=Addon\nid=addon\nrequire=core\n", "/b/mod.info");
    let mut mods = link_required_by(vec![core, addon]);
    mods[0].install_date = Some(s("2024-01-02T03:04:05Z"));
    mods[0].favorite = Some(true);
    mods[1].workshop = Some(Json::Object(vec![
        (s("creator_url"), Json::Str(s(" https://c/x "))),
        (s("creator_name"), Json::Str(s("Bob"))),
        (s("2nd"), Json::Bool(true)),
        (s("title"), Json::Str(s("hidden away"))),
        (s("fileid"), Json::Number(s("987"))),
    ]));
    let doc = render_catalog(&mods);
    let expected = "return {\n  mods = {\n    {\n      id = \"\\\\core\",\n      workshop_id = \"\",\n      author = \"Ann\",\n      hidden = false,\n      favorite = true,\n      version = \"1.0\",\n      install_date = 1704164645,\n      url = \"http://u\",\n      worldmap = \"Map\",\n      required_by = { { modId = \"addon\", name = \"Addon\" } },\n    },\n    {\n      id = \"\\\\addon::987\",\n      workshop_id = \"987\",\n      author = \"Bob\",\n      hidden = false,\n      favorite = false,\n      requires = { \"core\" },\n      [\"2nd\"] = true,\n      creator_url = \"https://c/x?appid=108600\",\n    },\n  }\n}";
    assert_eq!(doc, expected);
    assert_eq!(render_catalog(&mods), doc);
}

#[test]
fn catalog_empty_and_bad_date() {
    assert_eq!(render_catalog(&vec![]), "return {\n  mods = {\n  }\n}");
    let mut m = entry("id=x\n", "/x/mod.info");
    m.install_date = Some(s("yesterday"));
    m.workshop = Some(Json::Object(vec![(s("creator_url"), Json::Str(s("https://c?appid=108600")))]));
    let doc = render_catalog(&vec![m]);
    assert!(!doc.contains("install_date"));
    assert!(doc.contains("      creator_url = \"https://c?appid=108600\",\n"));
}

#[test]
fn negative_timestamp_renders_with_sign() {
    let mut m = entry("id=x\n", "/x/mod.info");
    m.install_date = Some(s("1969-12-31T23:59:50Z"));
    let doc = render_catalog(&vec![m]);
    assert!(doc.contains("      install_date = -10,\n"));
}
