use composer_completion::args::recover_current_arg;
use composer_completion::errors::CompletionError;
use composer_completion::filter::{candidate_lines, filter_candidates};
use composer_completion::locate::{is_hidden_name, manifest_file_name, manifest_path_in,
    select_manifest_path};
use composer_completion::manifest::{parse_manifest, DependencyManifest};

fn names(v: &[&str]) -> Vec<String> {
    v.iter().map(|s| (*s).to_owned()).collect()
}

#[test]
fn round_trip_require_and_dev() {
    let m = parse_manifest(r#"{"require": {"a/b": "^1.0"}, "require-dev": {"a/c": "^2.0"}}"#)
        .unwrap();
    assert_eq!(m.require, names(&["a/b"]));
    assert_eq!(m.require_dev, names(&["a/c"]));
    assert_eq!(candidate_lines("a/", &m), names(&["a/b", "a/c"]));
}

#[test]
fn empty_require_and_no_dev_yields_no_lines() {
    let m = parse_manifest(r#"{"require": {}}"#).unwrap();
    assert_eq!(m.require, names(&[]));
    assert_eq!(m.require_dev, names(&[]));
    assert_eq!(candidate_lines("anything", &m), names(&[]));
    assert_eq!(candidate_lines("", &m), names(&[]));
}

#[test]
fn malformed_text_is_rejected() {
    assert_eq!(parse_manifest("not json"), Err(CompletionError::ManifestMalformed));
    assert_eq!(parse_manifest(""), Err(CompletionError::ManifestMalformed));
}

#[test]
fn non_object_top_level_is_rejected() {
    assert_eq!(parse_manifest("[1, 2]"), Err(CompletionError::ManifestMalformed));
    assert_eq!(parse_manifest("\"require\""), Err(CompletionError::ManifestMalformed));
}

#[test]
fn missing_require_field_is_rejected() {
    assert_eq!(parse_manifest("{}"), Err(CompletionError::ManifestMalformed));
    assert_eq!(
        parse_manifest(r#"{"require-dev": {"a/c": "^2.0"}}"#),
        Err(CompletionError::ManifestMalformed)
    );
}

#[test]
fn non_object_require_degrades_to_empty_group() {
    let m = parse_manifest(r#"{"require": 3}"#).unwrap();
    assert_eq!(m.require, names(&[]));
}

#[test]
fn non_object_require_dev_degrades_to_empty_group() {
    let m = parse_manifest(r#"{"require": {"a/b": "1"}, "require-dev": "nope"}"#).unwrap();
    assert_eq!(m.require, names(&["a/b"]));
    assert_eq!(m.require_dev, names(&[]));
}

#[test]
fn keys_come_in_decoder_iteration_order() {
    let m = parse_manifest(r#"{"require": {"b/b": "1", "a/a": "2"}}"#).unwrap();
    assert_eq!(m.require, names(&["a/a", "b/b"]));
}

#[test]
fn update_passes_every_name() {
    let m = DependencyManifest {
        require: names(&["foo/one", "bar/two"]),
        require_dev: names(&["baz/three"]),
    };
    assert_eq!(
        candidate_lines("update", &m),
        names(&["foo/one", "bar/two", "baz/three"])
    );
}

#[test]
fn required_group_comes_before_dev_group() {
    let m = DependencyManifest {
        require: names(&["z/late"]),
        require_dev: names(&["a/early"]),
    };
    assert_eq!(candidate_lines("", &m), names(&["z/late", "a/early"]));
}

#[test]
fn prefix_filtering_keeps_matches_in_order() {
    let all = names(&["react", "redux", "vue", "remix"]);
    assert_eq!(filter_candidates("re", &all), names(&["react", "redux", "remix"]));
    assert_eq!(filter_candidates("vue", &all), names(&["vue"]));
    assert_eq!(filter_candidates("x", &all), names(&[]));
}

#[test]
fn empty_prefix_matches_everything() {
    let all = names(&["a", "b"]);
    assert_eq!(filter_candidates("", &all), all);
}

#[test]
fn duplicate_across_groups_is_emitted_twice() {
    let m = parse_manifest(r#"{"require": {"a/b": "1"}, "require-dev": {"a/b": "2"}}"#)
        .unwrap();
    assert_eq!(candidate_lines("a", &m), names(&["a/b", "a/b"]));
}

#[test]
fn locator_selects_single_candidate_directory() {
    let entries = names(&["proj"]);
    let r = select_manifest_path(&entries, &vec![true]);
    assert_eq!(r, Some("proj/composer.json".to_owned()));
}

#[test]
fn locator_ignores_hidden_directories() {
    let entries = names(&[".hidden"]);
    assert_eq!(select_manifest_path(&entries, &vec![true]), None);
}

#[test]
fn locator_takes_first_qualifying_entry() {
    let entries = names(&[".git", "without", "first", "second"]);
    let has = vec![true, false, true, true];
    assert_eq!(
        select_manifest_path(&entries, &has),
        Some("first/composer.json".to_owned())
    );
}

#[test]
fn locator_none_when_nothing_qualifies() {
    let entries = names(&["a", "b"]);
    assert_eq!(select_manifest_path(&entries, &vec![false, false]), None);
}

#[test]
fn hidden_names_start_with_a_dot() {
    assert!(is_hidden_name(".git"));
    assert!(!is_hidden_name("src"));
    assert!(!is_hidden_name(""));
}

#[test]
fn manifest_paths_use_the_conventional_name() {
    assert_eq!(manifest_file_name(), "composer.json".to_owned());
    assert_eq!(manifest_path_in("proj"), "proj/composer.json".to_owned());
}

#[test]
fn error_descriptions_are_stable() {
    assert_eq!(CompletionError::InputMissing.describe(), "Could not get arguments");
    assert_eq!(CompletionError::ManifestNotFound.describe(), "Could not find composer file");
}

#[test]
fn end_to_end_prefix_completion() {
    let line = Some("mytool requ".to_owned());
    let point = Some("11".to_owned());
    let arg = recover_current_arg(line, point).unwrap();
    assert_eq!(arg, "requ");
    let m = parse_manifest(r#"{"require": {"requests": "^1", "request-id": "^2"}}"#).unwrap();
    // The decoder iterates keys in sorted order, so `request-id` precedes
    // `requests` whatever the manifest's textual order.
    assert_eq!(candidate_lines(&arg, &m), names(&["request-id", "requests"]));
}
