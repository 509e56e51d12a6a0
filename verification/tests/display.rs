use rtree::models::EntryKind;
use rtree::order::rendered_name;
use rtree::root_display_name;

#[test]
fn current_directory_displays_as_dot() {
    assert_eq!(root_display_name("/some/where", true), ".");
    assert_eq!(root_display_name(".", true), ".");
}

#[test]
fn base_name_is_final_component() {
    assert_eq!(root_display_name("/tmp/foo", false), "foo");
    assert_eq!(root_display_name("rel/dir", false), "dir");
    assert_eq!(root_display_name("plain", false), "plain");
    assert_eq!(root_display_name("trailing/slash/", false), "slash");
    assert_eq!(root_display_name("a/.hidden", false), ".hidden");
}

#[test]
fn trailing_dot_components_are_skipped() {
    assert_eq!(root_display_name("a/.", false), "a");
    assert_eq!(root_display_name("foo.txt/.", false), "foo.txt");
    assert_eq!(root_display_name("foo/./", false), "foo");
    assert_eq!(root_display_name("a/./.", false), "a");
}

#[test]
fn paths_without_base_name_display_whole() {
    assert_eq!(root_display_name("/", false), "/");
    assert_eq!(root_display_name("", false), "");
    assert_eq!(root_display_name("a/..", false), "a/..");
    assert_eq!(root_display_name(".", false), ".");
    assert_eq!(root_display_name("./", false), "./");
    assert_eq!(root_display_name("a/../.", false), "a/../.");
}

#[test]
fn rendered_name_appends_slash_only_for_directories() {
    assert_eq!(rendered_name("x", EntryKind::Directory), "x/");
    assert_eq!(rendered_name("x", EntryKind::File), "x");
    assert_eq!(rendered_name("x", EntryKind::Symlink), "x");
    assert_eq!(rendered_name("x", EntryKind::Other), "x");
}
