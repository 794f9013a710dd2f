//! Catalogs, locales and placeholders.

use gifkino::i18n::{
    candidates, current_locale, fill, locale, lookup, n, normalize_locale, parse_po, quote, t, tn,
    Catalog,
};
use gifkino::places::{catalog_files, search_dirs};

#[test]
fn a_catalog_reads_entries_and_skips_the_header() {
    let catalog = parse_po(
        r#"
# German translation
msgid ""
msgstr "Content-Type: text/plain; charset=UTF-8\n"

#. Translators: the export button
msgid "Export GIF"
msgstr "GIF exportieren"

msgid "Open…"
msgstr "Öffnen…"
"#,
    );
    assert_eq!(
        catalog.get("Export GIF").map(String::as_str),
        Some("GIF exportieren")
    );
    assert_eq!(catalog.get("Open…").map(String::as_str), Some("Öffnen…"));
    assert_eq!(catalog.len(), 2, "the header is not an entry: {catalog:?}");
}

#[test]
fn empty_translations_are_not_entries() {
    let catalog =
        parse_po("msgid \"Undo\"\nmsgstr \"\"\n\nmsgid \"Redo\"\nmsgstr \"Wiederholen\"\n");
    assert!(!catalog.contains_key("Undo"));
    assert_eq!(catalog.get("Redo").map(String::as_str), Some("Wiederholen"));
}

#[test]
fn fuzzy_entries_are_used_rather_than_dropped() {
    let catalog = parse_po(
        "#. Translators: Optimize menu item\n\
         #. AI-generated translation; human review requested.\n\
         #, fuzzy\n\
         msgid \"Crop all frames…\"\n\
         msgstr \"Alle Bilder zuschneiden…\"\n",
    );
    assert_eq!(
        catalog.get("Crop all frames…").map(String::as_str),
        Some("Alle Bilder zuschneiden…")
    );
}

#[test]
fn multiline_strings_and_escapes_survive_the_round_trip() {
    let catalog = parse_po(
        "msgid \"\"\n\
         \"Drag a box \"\n\
         \"on the canvas.\"\n\
         msgstr \"\"\n\
         \"Ziehen Sie einen Rahmen\\n\"\n\
         \"auf der Leinwand.\"\n",
    );
    assert_eq!(
        catalog.get("Drag a box on the canvas.").map(String::as_str),
        Some("Ziehen Sie einen Rahmen\nauf der Leinwand.")
    );

    for original in [
        "plain",
        "with \"quotes\"",
        "two\nlines",
        "a\\backslash",
        "tab\there",
    ] {
        let round = parse_po(&format!(
            "msgid {}\nmsgstr {}\n",
            quote("k"),
            quote(original)
        ));
        assert_eq!(
            round.get("k").map(String::as_str),
            Some(original),
            "{original:?}"
        );
    }
}

#[test]
fn contextual_and_plural_entries_are_skipped_not_mangled() {
    let catalog = parse_po(
        "msgctxt \"verb\"\nmsgid \"Export\"\nmsgstr \"Exportieren\"\n\n\
         msgid \"Frame\"\nmsgid_plural \"Frames\"\nmsgstr[0] \"Bild\"\n\n\
         msgid \"Undo\"\nmsgstr \"Rückgängig\"\n",
    );
    assert!(!catalog.contains_key("Export"), "{catalog:?}");
    assert!(!catalog.contains_key("Frame"));
    assert_eq!(catalog.get("Undo").map(String::as_str), Some("Rückgängig"));
}

#[test]
fn a_skipped_entry_takes_no_neighbour_with_it() {
    let catalog = parse_po(
        "msgid \"A\"\nmsgstr \"a\"\nmsgctxt \"x\"\nmsgid \"B\"\nmsgstr \"b\"\n\
         msgid \"C\"\nmsgstr \"c\"\n\
         msgid \"D\"\nmsgid_plural \"Ds\"\nmsgstr[0] \"d\"\nmsgstr[1] \"e\"\n\
         msgid \"E\"\nmsgstr \"e\"\n",
    );
    assert_eq!(catalog.len(), 3, "{catalog:?}");
    assert_eq!(catalog.get("A").map(String::as_str), Some("a"));
    assert_eq!(catalog.get("C").map(String::as_str), Some("c"));
    assert_eq!(catalog.get("E").map(String::as_str), Some("e"));
}

#[test]
fn a_count_behind_an_ordinary_translation_is_left_alone() {
    let catalog = parse_po(
        "msgid \"A\"\nmsgstr \"y\"\nmsgstr[0] \"x\"\n\
         msgid \"B\"\nmsgstr[0] \"x\"\n\"z\"\n\
         msgid \"C\"\nmsgstr \"c\"\n",
    );
    assert_eq!(catalog.len(), 2, "{catalog:?}");
    assert_eq!(catalog.get("A").map(String::as_str), Some("y"));
    assert_eq!(catalog.get("C").map(String::as_str), Some("c"));
}

#[test]
fn locales_narrow_from_the_region_to_the_language() {
    assert_eq!(normalize_locale("de_DE.UTF-8@euro"), "de_DE");
    assert_eq!(normalize_locale("ja_JP.UTF-8"), "ja_JP");
    assert_eq!(normalize_locale("pt-BR"), "pt_BR");
    assert_eq!(candidates("pt_BR"), vec!["pt_BR", "pt"]);
    assert_eq!(candidates("ja"), vec!["ja"], "nothing to fall back to");
}

#[test]
fn placeholders_are_named_so_a_sentence_can_be_reordered() {
    let english = "Exported to {path} · {size}";
    let german = "{size} nach {path} exportiert";
    let values = [("path", "/tmp/a.gif"), ("size", "412 KB")];
    assert_eq!(fill(english, &values), "Exported to /tmp/a.gif · 412 KB");
    assert_eq!(fill(german, &values), "412 KB nach /tmp/a.gif exportiert");
    // An unknown placeholder is left alone rather than swallowed, so a
    // typo in a catalog is visible instead of silent.
    assert_eq!(fill("{nope}", &values), "{nope}");
}

#[test]
fn an_untranslated_text_is_its_own_translation() {
    let catalog = Catalog::new();
    assert_eq!(t(&catalog, "Open"), "Open");
    assert_eq!(lookup(&catalog, "Open"), "Open");
    assert_eq!(n("Open"), "Open");
    assert_eq!(tn(&catalog, "one", "many", 1), "one");
    assert_eq!(tn(&catalog, "one", "many", 0), "many");
    assert_eq!(tn(&catalog, "one", "many", 2), "many");
    let german = parse_po("msgid \"Open\"\nmsgstr \"Öffnen\"\n");
    assert_eq!(t(&german, "Open"), "Öffnen");
}

#[test]
fn the_setting_outranks_the_environment() {
    let variables = vec![String::new(), "de_DE.UTF-8".to_string()];
    assert_eq!(locale(&Some("ja".to_string()), &variables), "ja");
    assert_eq!(
        current_locale(&None, &variables),
        Some("de_DE".to_string()),
        "the first that names one"
    );
}

#[test]
fn catalogs_are_looked_for_from_the_nearest_place_out() {
    let above: Vec<String> = ["/r/target/debug", "/r/target", "/r", "/", "/never"]
        .iter()
        .map(|s| s.to_string())
        .collect();
    let dirs = search_dirs(Some("/mine"), &above, None, Some("/home/u"));
    assert_eq!(
        dirs,
        vec![
            "/mine",
            "/r/target/debug/po",
            "/r/target/po",
            "/r/po",
            "/po",
            "/home/u/.local/share/gifkino/po",
            "/usr/share/gifkino/po",
            "/app/share/gifkino/po",
        ]
    );
    let near = vec!["/a".to_string(), "/b".to_string()];
    assert_eq!(
        catalog_files(&near, "de_AT"),
        vec!["/a/de_AT.po", "/a/de.po", "/b/de_AT.po", "/b/de.po"]
    );
    assert_eq!(catalog_files(&near[..1].to_vec(), "ja"), vec!["/a/ja.po"]);
}
