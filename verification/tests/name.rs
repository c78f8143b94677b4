use rustache::name::template_name;

#[test]
fn name_is_the_path_from_the_directory_on_without_extension() {
    assert_eq!(template_name("views", "views/a/b.mustache"), Some("a/b".to_string()));
    assert_eq!(template_name("views", "views/index.mustache"), Some("index".to_string()));
    assert_eq!(template_name("views/", "views/index.mustache"), Some("index".to_string()));
    assert_eq!(template_name("", "a/b.mustache"), Some("a/b".to_string()));
    assert_eq!(template_name("site/views", "site/views/x.html"), Some("x".to_string()));
}

#[test]
fn name_has_forward_slashes() {
    assert_eq!(template_name("views", "views\\a\\b.mustache"), Some("a/b".to_string()));
}

#[test]
fn only_the_last_extension_is_dropped() {
    assert_eq!(template_name("v", "v/a.b.c"), Some("a.b".to_string()));
    assert_eq!(template_name("v", "v/a.d/b"), Some("a.d/b".to_string()));
    assert_eq!(template_name("v", "v/a."), Some("a".to_string()));
    assert_eq!(template_name("v", "v/noext"), Some("noext".to_string()));
}

#[test]
fn dot_at_the_start_of_a_file_name_starts_no_extension() {
    assert_eq!(template_name("v", "v/.hidden"), Some(".hidden".to_string()));
    assert_eq!(template_name("v", "v/a/.hidden.txt"), Some("a/.hidden".to_string()));
}

#[test]
fn path_outside_the_directory_has_no_name() {
    assert_eq!(template_name("views", "other/a.mustache"), None);
    assert_eq!(template_name("views", "viewsa.mustache"), None);
    assert_eq!(template_name("views", "views"), None);
    assert_eq!(template_name("views", "vie"), None);
}

#[test]
fn names_are_counted_in_characters() {
    assert_eq!(template_name("\u{e9}t\u{e9}", "\u{e9}t\u{e9}/\u{4e16}.txt"), Some("\u{4e16}".to_string()));
}
