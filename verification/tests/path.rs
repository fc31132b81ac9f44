use editor_access::path::{extension, file_name, parent, piece_is_name, same_chars, split_pieces, CanonicalPath};
use editor_access::text::{chars_of, spells};

fn chars(text: &str) -> Vec<char> {
    text.chars().collect()
}

#[test]
fn parse_accepts_resolved_paths() {
    for text in ["/", "/a", "/a/b", "/home/u/project/src/main.txt", "/a/...", "/a/.b", "/a/b.", "/ä/ö"] {
        let parsed = CanonicalPath::parse(text);
        assert_eq!(parsed.map(|path| path.as_str().to_string()), Some(text.to_string()), "{}", text);
    }
}

#[test]
fn parse_refuses_relative_paths() {
    for text in ["", "a", "a/b", "./a", "../a", "~/a"] {
        assert!(CanonicalPath::parse(text).is_none(), "{}", text);
    }
}

#[test]
fn parse_refuses_dot_segments() {
    for text in ["/.", "/..", "/a/.", "/a/..", "/a/./b", "/a/../b", "/./a", "/../a"] {
        assert!(CanonicalPath::parse(text).is_none(), "{}", text);
    }
}

#[test]
fn parse_refuses_empty_segments() {
    for text in ["//", "/a/", "/a//b", "//a", "/a/b/"] {
        assert!(CanonicalPath::parse(text).is_none(), "{}", text);
    }
}

#[test]
fn is_within_compares_whole_segments() {
    let folder = CanonicalPath::parse("/a/b").unwrap();
    assert!(CanonicalPath::parse("/a/b").unwrap().is_within(&folder));
    assert!(CanonicalPath::parse("/a/b/c/d").unwrap().is_within(&folder));
    assert!(!CanonicalPath::parse("/a/bb").unwrap().is_within(&folder));
    assert!(!CanonicalPath::parse("/a").unwrap().is_within(&folder));
    assert!(!CanonicalPath::parse("/b/a/b").unwrap().is_within(&folder));
}

#[test]
fn everything_is_within_the_root() {
    let root = CanonicalPath::parse("/").unwrap();
    assert!(CanonicalPath::parse("/").unwrap().is_within(&root));
    assert!(CanonicalPath::parse("/a/b").unwrap().is_within(&root));
    assert!(!root.is_within(&CanonicalPath::parse("/a").unwrap()));
}

#[test]
fn split_pieces_cuts_at_every_separator() {
    assert_eq!(split_pieces(&chars("")), vec![chars("")]);
    assert_eq!(split_pieces(&chars("/")), vec![chars(""), chars("")]);
    assert_eq!(split_pieces(&chars("/a/bc")), vec![chars(""), chars("a"), chars("bc")]);
    assert_eq!(split_pieces(&chars("a//b/")), vec![chars("a"), chars(""), chars("b"), chars("")]);
}

#[test]
fn piece_is_name_refuses_dots_and_nothing() {
    assert!(!piece_is_name(&chars("")));
    assert!(!piece_is_name(&chars(".")));
    assert!(!piece_is_name(&chars("..")));
    assert!(piece_is_name(&chars("...")));
    assert!(piece_is_name(&chars("a")));
    assert!(piece_is_name(&chars(".a")));
    assert!(piece_is_name(&chars("a.")));
}

#[test]
fn same_chars_compares_by_content() {
    assert!(same_chars(&chars("abc"), &chars("abc")));
    assert!(same_chars(&chars(""), &chars("")));
    assert!(!same_chars(&chars("abc"), &chars("abd")));
    assert!(!same_chars(&chars("abc"), &chars("ab")));
}

#[test]
fn chars_of_gives_every_character() {
    assert_eq!(chars_of("héllo"), vec!['h', 'é', 'l', 'l', 'o']);
    assert_eq!(chars_of(""), Vec::<char>::new());
}

#[test]
fn spells_compares_with_a_word() {
    assert!(spells(&chars("target"), "target"));
    assert!(!spells(&chars("target"), "targets"));
    assert!(!spells(&chars("targets"), "target"));
    assert!(!spells(&chars("tarGet"), "target"));
    assert!(spells(&chars(""), ""));
}

#[test]
fn parent_drops_the_last_piece() {
    assert_eq!(parent("/home/u/project/new.txt"), Some("/home/u/project".to_string()));
    assert_eq!(parent("/a"), Some("/".to_string()));
    assert_eq!(parent("a/b"), Some("a".to_string()));
    assert_eq!(parent("a"), Some("".to_string()));
    assert_eq!(parent("a/b/"), Some("a".to_string()));
    assert_eq!(parent("a//b"), Some("a".to_string()));
    assert_eq!(parent("a/./b"), Some("a".to_string()));
    assert_eq!(parent("./a"), Some(".".to_string()));
    assert_eq!(parent("/a/.."), Some("/a".to_string()));
    assert_eq!(parent("."), Some("".to_string()));
}

#[test]
fn parent_of_root_and_of_nothing_is_none() {
    assert_eq!(parent("/"), None);
    assert_eq!(parent(""), None);
    assert_eq!(parent("//"), None);
    assert_eq!(parent("/."), None);
}

#[test]
fn file_name_is_the_last_name() {
    assert_eq!(file_name("/home/u/project/src/main.txt"), Some("main.txt".to_string()));
    assert_eq!(file_name("main.txt"), Some("main.txt".to_string()));
    assert_eq!(file_name("a/b/"), Some("b".to_string()));
    assert_eq!(file_name("a/b/."), Some("b".to_string()));
    assert_eq!(file_name("/a/.hidden"), Some(".hidden".to_string()));
}

#[test]
fn file_name_of_what_names_nothing_is_none() {
    assert_eq!(file_name(""), None);
    assert_eq!(file_name("/"), None);
    assert_eq!(file_name("a/.."), None);
    assert_eq!(file_name(".."), None);
    assert_eq!(file_name("."), None);
}

#[test]
fn extension_follows_the_last_dot() {
    assert_eq!(extension("main.rs"), "rs");
    assert_eq!(extension("/a/b/archive.tar.gz"), "gz");
    assert_eq!(extension("/a.d/file"), "");
    assert_eq!(extension("Makefile"), "");
    assert_eq!(extension(".bashrc"), "");
    assert_eq!(extension(".config.toml"), "toml");
    assert_eq!(extension("name."), "");
    assert_eq!(extension("dir.x/"), "x");
    assert_eq!(extension(""), "");
    assert_eq!(extension("a/.."), "");
}
