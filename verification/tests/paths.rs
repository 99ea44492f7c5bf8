use pavex_reflection::text::{count_leading, replace_hyphens, split_path};
use pavex_reflection::{CreatedAt, Location, RawIdentifiers};

fn identifiers(import_path: &str, crate_name: &str, module: &str) -> RawIdentifiers {
    RawIdentifiers::from_raw_parts(
        import_path.to_string(),
        CreatedAt {
            crate_name: crate_name.to_string(),
            module: module.to_string(),
        },
    )
}

fn resolve(import_path: &str, crate_name: &str, module: &str) -> Vec<String> {
    identifiers(import_path, crate_name, module).fully_qualified_path()
}

#[test]
fn parts_are_kept_as_given() {
    let ids = identifiers(" crate :: a", "my-crate", "my_crate::m");
    assert_eq!(ids.raw_path(), " crate :: a");
    assert_eq!(ids.created_at().crate_name, "my-crate");
    assert_eq!(ids.created_at().module, "my_crate::m");
    assert_eq!(ids.import_path, " crate :: a");
    assert_eq!(ids.clone(), ids);
}

#[test]
fn locations_are_cloned() {
    let location = Location {
        line: 3,
        column: 7,
        file: "src/lib.rs".to_string(),
    };
    assert_eq!(location.clone(), location);
}

#[test]
fn crate_is_replaced_by_the_name_of_the_crate() {
    assert_eq!(
        resolve("crate::a::B", "my-crate-x", "my_crate_x::m"),
        vec!["my_crate_x", "a", "B"]
    );
    assert_eq!(resolve("crate", "app", "app::m"), vec!["app"]);
}

#[test]
fn only_the_name_of_the_crate_loses_its_hyphens() {
    assert_eq!(
        resolve("crate::a-b", "my-crate", "m"),
        vec!["my_crate", "a-b"]
    );
    assert_eq!(resolve("my-crate::a", "my-crate", "m"), vec!["my-crate", "a"]);
    // The name of the crate is not trimmed.
    assert_eq!(resolve("crate::a", " my-crate ", "m"), vec![" my_crate ", "a"]);
}

#[test]
fn self_is_replaced_by_the_module() {
    assert_eq!(
        resolve("self::a::B", "app", "app::m::n"),
        vec!["app", "m", "n", "a", "B"]
    );
    assert_eq!(resolve("self", "app", " app :: m "), vec!["app", "m"]);
}

#[test]
fn each_super_goes_one_module_up() {
    assert_eq!(resolve("super::B", "app", "app::m::n"), vec!["app", "m", "B"]);
    assert_eq!(
        resolve("super::super::B", "app", "app::m::n"),
        vec!["app", "B"]
    );
    assert_eq!(
        resolve("super::super::super::B", "app", "app::m::n"),
        vec!["B"]
    );
    // Only the `super`s in front count.
    assert_eq!(
        resolve("super::B::super::C", "app", "app::m"),
        vec!["app", "B", "super", "C"]
    );
    let none: Vec<String> = vec![];
    assert_eq!(resolve("super", "app", "app"), none);
}

#[test]
fn super_after_self_goes_one_module_up() {
    assert_eq!(resolve("self::super::X", "app", "app::a"), vec!["app", "X"]);
    assert_eq!(
        resolve("self::super::super::X", "app", "app::a::b"),
        vec!["app", "X"]
    );
    assert_eq!(resolve("self::super", "app", "app::a"), vec!["app"]);
    assert_eq!(resolve("self::super::X", "app", "app"), vec!["X"]);
    for path in ["super::X", "super::super::X::Y"] {
        assert_eq!(
            resolve(&format!("self::{path}"), "app", "app::a::b"),
            resolve(path, "app", "app::a::b")
        );
    }
}

#[test]
fn resolved_paths_hold_no_keyword() {
    for path in [
        "crate::X",
        "self::X",
        "self",
        "self::super::X",
        "self::super::super::X",
        "super::X",
        "super::super::X",
        "std::X",
    ] {
        for segment in resolve(path, "my-app", "my_app::a::b") {
            assert!(!["crate", "self", "super"].contains(&segment.as_str()));
        }
    }
}

#[test]
fn absolute_paths_are_kept() {
    assert_eq!(resolve("std::vec::Vec", "app", "app::m"), vec!["std", "vec", "Vec"]);
    assert_eq!(resolve("::std::vec", "app", "app::m"), vec!["", "std", "vec"]);
    assert_eq!(resolve("crate_x::a", "app", "app::m"), vec!["crate_x", "a"]);
    assert_eq!(resolve("", "app", "app::m"), vec![""]);
    assert_eq!(
        resolve("std::vec::Vec", "other", "other::k"),
        resolve("std::vec::Vec", "app", "app::m")
    );
}

#[test]
fn segments_are_trimmed() {
    assert_eq!(
        resolve(" crate :: a\t::\n B ", "app", "m"),
        vec!["app", "a", "B"]
    );
    assert_eq!(resolve("a b::  c d", "app", "m"), vec!["a b", "c d"]);
}

#[test]
fn self_is_the_path_through_the_module() {
    assert_eq!(
        resolve("self::a::B", "my-app", "my_app::m"),
        resolve("crate::m::a::B", "my-app", "elsewhere")
    );
}

#[test]
fn super_is_the_path_of_the_module_above() {
    assert_eq!(
        resolve("super::a", "app", "app::m::n"),
        resolve("self::a", "app", "app::m")
    );
    assert_eq!(
        resolve("super::super::a", "app", "app::m::n"),
        resolve("super::a", "app", "app::m")
    );
    assert_eq!(
        resolve("super::super::a", "app", "app::m::n"),
        resolve("self::super::a", "app", "app::m")
    );
}

#[test]
fn resolved_paths_are_resolved_to_themselves() {
    for path in ["crate::a::B", "self::a", "self::super::a", "super::a", "std::a"] {
        let resolved = resolve(path, "my-app", "my_app::m");
        assert_eq!(resolve(&resolved.join("::"), "other", "k::l"), resolved);
    }
}

#[test]
fn separators_are_found_from_left_to_right() {
    assert_eq!(split_path(""), vec![""]);
    assert_eq!(split_path("::"), vec!["", ""]);
    assert_eq!(split_path(":::"), vec!["", ":"]);
    assert_eq!(split_path("::::"), vec!["", "", ""]);
    assert_eq!(split_path("a:b::c"), vec!["a:b", "c"]);
    assert_eq!(split_path("a::"), vec!["a", ""]);
    assert_eq!(split_path("\u{e9}\u{1f980}::\u{4e2d}"), vec!["\u{e9}\u{1f980}", "\u{4e2d}"]);
}

#[test]
fn splitting_agrees_with_the_standard_library() {
    for text in [
        "", ":", "::", ":::", "a", "a::b", " a :: b ", "a:::b", "::a::::b::", "x: :y", "\u{3000}q\u{3000}::\u{a0}",
    ] {
        let expected: Vec<&str> = text.split("::").map(|s| s.trim()).collect();
        assert_eq!(split_path(text), expected);
    }
}

#[test]
fn splitting_undoes_joining() {
    let segments = vec!["app", "m", "", "x y", "Z"];
    assert_eq!(split_path(&segments.join("::")), segments);
}

#[test]
fn white_space_is_what_the_standard_library_says() {
    for c in '\0'..=char::MAX {
        let text = format!("{c}a{c}");
        assert_eq!(split_path(&text), vec![text.trim()]);
    }
}

#[test]
fn hyphens_become_underscores() {
    assert_eq!(replace_hyphens(""), "");
    assert_eq!(replace_hyphens("abc"), "abc");
    assert_eq!(replace_hyphens("-a--b-"), "_a__b_");
    assert_eq!(replace_hyphens("\u{e9}-\u{e9}"), "\u{e9}_\u{e9}");
}

#[test]
fn leading_words_are_counted() {
    let words: Vec<String> = ["super", "super", "a", "super"].map(String::from).to_vec();
    assert_eq!(count_leading(&words, "super"), 2);
    assert_eq!(count_leading(&words, "a"), 0);
    assert_eq!(count_leading(&vec![], "a"), 0);
}
