use app_menu::paths::path_file_stem;
use app_menu::paths::path_parent;
use app_menu::paths::find_dir;
use app_menu::strings::contains_char;
use app_menu::strings::split_char;
use app_menu::strings::str_eq;
use app_menu::strings::str_le;
use app_menu::taxonomy::Category;
use app_menu::taxonomy::all_categories;
use app_menu::taxonomy::category_idx;
use app_menu::taxonomy::category_of_token;
use app_menu::taxonomy::category_str_convert;
use app_menu::taxonomy::category_string;
use app_menu::taxonomy::effective_category;
use app_menu::xdg::exec_substitute;
use app_menu::xdg::split;
use app_menu::xdg::unescape;

#[test]
fn unescape_known_escapes() {
    assert_eq!(unescape("a\\sb\\t\\r\\n\\\\", false), "a b\t\r\n\\");
}

#[test]
fn unescape_trailing_backslash_kept() {
    assert_eq!(unescape("x\\", false), "x\\");
}

#[test]
fn unescape_unknown_escape_kept() {
    assert_eq!(unescape("\\x", false), "\\x");
}

#[test]
fn unescape_semicolon_only_in_lists() {
    assert_eq!(unescape("a\\;b", true), "a;b");
    assert_eq!(unescape("a\\;b", false), "ab");
}

#[test]
fn split_plain_list() {
    assert_eq!(split("A;B;C"), vec!["A", "B", "C"]);
}

#[test]
fn split_escaped_separator() {
    assert_eq!(split("a\\;b;c"), vec!["a;b", "c"]);
}

#[test]
fn split_trailing_empty_dropped() {
    assert_eq!(split("x;"), vec!["x"]);
    assert_eq!(split(""), Vec::<String>::new());
}

#[test]
fn split_leading_empty_kept() {
    assert_eq!(split(";a"), vec!["", "a"]);
}

#[test]
fn exec_substitute_field_codes() {
    let out = exec_substitute(
        "run %f %u --icon %i --name %c file %k tail %x %",
        Some("ic".to_string()),
        "Nm",
        "/p/a.desktop",
    );
    assert_eq!(out, "run   --icon ic --name Nm file /p/a.desktop tail %x %");
}

#[test]
fn exec_substitute_no_icon() {
    assert_eq!(exec_substitute("%i run", None, "n", "p"), " run");
}

#[test]
fn file_stem_strips_last_extension() {
    assert_eq!(path_file_stem("/usr/share/applications/a.desktop"), "a");
    assert_eq!(path_file_stem("/d/a.b.c"), "a.b");
    assert_eq!(path_file_stem("noext"), "noext");
    assert_eq!(path_file_stem("/d/.hidden"), ".hidden");
}

#[test]
fn parent_of_paths() {
    assert_eq!(
        path_parent("/usr/share/applications/a.desktop"),
        Some("/usr/share/applications".to_string())
    );
    assert_eq!(path_parent("/a"), Some("/".to_string()));
    assert_eq!(path_parent("a"), None);
}

#[test]
fn find_dir_first_match() {
    let dirs = vec!["/u".to_string(), "/s".to_string(), "/u".to_string()];
    assert_eq!(find_dir(&dirs, "/u"), Some(0));
    assert_eq!(find_dir(&dirs, "/s"), Some(1));
    assert_eq!(find_dir(&dirs, "/x"), None);
}

#[test]
fn category_ids_are_stable() {
    let cats = all_categories();
    assert_eq!(cats.len(), 11);
    for (i, c) in cats.iter().enumerate() {
        assert_eq!(category_idx(*c), (i + 1) as u64);
    }
}

#[test]
fn category_tokens_match_exactly() {
    assert_eq!(category_of_token("Utility"), Some(Category::Utility));
    assert_eq!(category_of_token("Network"), Some(Category::Network));
    assert_eq!(category_of_token("utility"), None);
    assert_eq!(category_of_token("Nope"), None);
}

#[test]
fn category_labels() {
    assert_eq!(category_string(Category::Network), "Internet");
    assert_eq!(category_string(Category::Utility), "Accessories");
    assert_eq!(category_string(Category::Uncategorized), "Other");
}

#[test]
fn unknown_tokens_dropped_in_order() {
    let got = category_str_convert(vec![
        "X".to_string(),
        "Office".to_string(),
        "Utility".to_string(),
    ]);
    assert_eq!(got, vec![Category::Office, Category::Utility]);
}

#[test]
fn effective_category_falls_back() {
    assert_eq!(effective_category(&vec![]), Category::Uncategorized);
    assert_eq!(
        effective_category(&vec![Category::Game, Category::Office]),
        Category::Game
    );
}

#[test]
fn string_equality_and_order() {
    assert!(str_eq("abc", "abc"));
    assert!(!str_eq("abc", "abd"));
    assert!(str_le("Alpha", "Zed"));
    assert!(!str_le("Zed", "Alpha"));
    assert!(str_le("same", "same"));
    assert!(str_le("ab", "abc"));
}

#[test]
fn split_char_keeps_empty_tokens() {
    let toks = split_char("a  b", ' ');
    assert_eq!(toks, vec!["a", "", "b"]);
    assert_eq!(split_char("", ' '), vec![""]);
}

#[test]
fn contains_char_finds() {
    assert!(contains_char("a/b", '/'));
    assert!(!contains_char("ab", '/'));
}
