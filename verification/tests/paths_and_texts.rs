use move_roms::paths::{OpaqueName, PathPart, PathStyle, RomPath};
use move_roms::text;
use move_roms::text_set::TextSet;

fn windows(text: &str) -> RomPath {
    RomPath::parse(PathStyle::Windows, text)
}

fn unix(text: &str) -> RomPath {
    RomPath::parse(PathStyle::Unix, text)
}

fn opaque() -> PathPart {
    PathPart::Opaque(OpaqueName {
        raw: vec![0x66, 0xff, 0x2e, 0x62],
        shown: String::from("f\u{fffd}.b"),
        stem: None,
        extension: Some(String::from("b")),
    })
}

#[test]
fn paths_are_shown_as_they_were_written() {
    for path in [r"C:\a\b.bin", r"\\server\share\a", r"a\b", r"\a", r"..\x", r"C:a"] {
        assert_eq!(windows(path).display(), path);
    }
    for path in ["/a/b", "a/b", "/", "../x", "./a", ""] {
        assert_eq!(unix(path).display(), path);
    }
}

#[test]
fn idle_separators_and_dots_are_dropped() {
    assert!(unix("/a//b/./c/").same(&unix("/a/b/c")));
    assert!(windows("a/b\\c").same(&windows("a\\b\\c")));
    assert!(!unix("./a").same(&unix("a")));
}

#[test]
fn prefix_is_taken_off_by_parts() {
    let rest = unix("/a/b/c").strip_prefix(&unix("/a/b")).expect("prefix");
    assert_eq!(rest.display(), "c");
    assert!(unix("/a/bc").strip_prefix(&unix("/a/b")).is_none());
    assert!(unix("/a/b").strip_prefix(&unix("/a/b")).expect("itself").parts.is_empty());
}

#[test]
fn joining_an_absolute_path_replaces() {
    assert!(unix("/a").join(&unix("b/c")).same(&unix("/a/b/c")));
    assert!(unix("/a").join(&unix("/b")).same(&unix("/b")));
    assert!(windows(r"C:\a").join(&windows(r"\b")).same(&windows(r"C:\b")));
    assert!(windows(r"C:\a").join(&windows(r"D:\b")).same(&windows(r"D:\b")));
}

#[test]
fn names_are_split_at_their_last_dot() {
    let path = unix("/a/x.tar.GZ");
    assert_eq!(path.file_name_text(), Some("x.tar.GZ"));
    assert_eq!(path.extension().as_deref(), Some("GZ"));
    assert_eq!(path.lower_extension(), "gz");
    assert_eq!(path.file_stem().as_deref(), Some("x.tar"));
    assert_eq!(unix("/a/.hidden").extension(), None);
    assert_eq!(unix("/a/.hidden").file_stem().as_deref(), Some(".hidden"));
    assert_eq!(unix("/a/..").file_stem(), None);
}

#[test]
fn name_that_is_not_text_still_has_its_text_parts() {
    let path = unix("/a").with_part(opaque());
    assert_eq!(path.file_name_text(), None);
    assert_eq!(path.extension().as_deref(), Some("b"));
    assert_eq!(path.file_stem(), None);
    assert_eq!(path.display(), "/a/f\u{fffd}.b");
    assert!(path.same(&unix("/a").with_part(opaque())));
    assert_eq!(path.texts(), vec![String::from("/"), String::from("a")]);
}

#[test]
fn levels_go_from_the_inside_out() {
    assert_eq!(
        unix("/A/B/c.Bin").level_names(2),
        vec![String::from("c.bin"), String::from("b")]
    );
    assert_eq!(unix("/A/B/c.Bin").level_names(6).len(), 3);
}

#[test]
fn set_holds_each_text_once() {
    let mut set = TextSet::new();
    set.insert(String::from("a"));
    set.insert(String::from("b"));
    set.insert(String::from("a"));
    assert_eq!(set.len(), 2);
    let mut more = TextSet::new();
    more.insert(String::from("b"));
    more.insert(String::from("c"));
    set.add_all(&more);
    assert_eq!(set.len(), 3);
    set.remove("b");
    assert!(!set.contains("b") && set.contains("a") && set.contains("c"));
}

#[test]
fn texts_are_ordered_by_characters() {
    assert!(text::before("Zelda", "apple"));
    assert!(text::before("a", "ab"));
    assert!(!text::before("ab", "a"));
    assert!(!text::before("a", "a"));
    assert!(text::before("z", "é"));
}

#[test]
fn numbers_are_written_in_decimal() {
    for number in [0, 7, 10, 909, 1234567890] {
        assert_eq!(text::decimal_text(number), format!("{}", number));
    }
}

#[test]
fn white_space_is_trimmed_at_both_ends() {
    assert_eq!(text::trimmed(" \t a b \n"), "a b");
    assert_eq!(text::trimmed("\u{3000}"), "");
    assert_eq!(text::trimmed("a"), "a");
}

#[test]
fn drives_are_the_same_in_any_case() {
    assert!(windows(r"c:\a").same(&windows(r"C:\a")));
    assert!(!windows(r"C:\a").same(&windows(r"C:\A")));
    assert!(!windows(r"C:\a").same(&windows(r"D:\a")));
    assert!(windows(r"c:\a\b").starts_with(&windows(r"C:\a")));
    assert_eq!(windows(r"c:\a").display(), r"c:\a");
    assert!(windows(r"\\?\c:\a").same(&windows(r"\\?\C:\a")));
    assert!(!windows(r"\\?\C:\a").same(&windows(r"C:\a")));
}

#[test]
fn shares_are_the_same_whichever_way_slashes_lean() {
    assert!(windows("//server/share/a").same(&windows(r"\\server\share\a")));
    assert!(!windows(r"\\server\share").same(&windows(r"\\Server\share")));
    assert!(windows(r"\\server\share").same(&windows(r"\\server\share\")));
}

#[test]
fn prefixes_are_told_apart() {
    let first = |text: &str| match &windows(text).parts[0] {
        PathPart::Prefix(prefix) => prefix.clone(),
        other => panic!("{:?}", other),
    };
    assert_eq!(first(r"\\?\UNC\server\share\a\b"), r"\\?\UNC\server\share");
    assert_eq!(first(r"\\?\UNC\server"), r"\\?\UNC\server");
    assert_eq!(first(r"\\?\C:\a"), r"\\?\C:");
    assert_eq!(first(r"\\?\C:a\b"), r"\\?\C:a");
    assert_eq!(first(r"\\?\volume\b"), r"\\?\volume");
    assert_eq!(first(r"\\.\COM42\b"), r"\\.\COM42");
    assert_eq!(first(r"\\server\share\b"), r"\\server\share");
    assert_eq!(first(r"//?/C:/b"), r"//?/C:");
    assert!(!windows("//?/C:").same(&windows(r"\\?\C:")));
    assert!(matches!(windows(r"\\server").parts[0], PathPart::Root));
}

#[test]
fn verbatim_paths_keep_dots_and_forward_slashes() {
    let path = windows(r"\\?\C:\a/b\.\..\c");
    assert_eq!(path.parts.len(), 6);
    assert!(matches!(&path.parts[2], PathPart::Name(name) if name == "a/b"));
    assert!(matches!(path.parts[3], PathPart::Current));
    assert!(matches!(path.parts[4], PathPart::Parent));
    assert!(windows(r"C:\a\.\b").same(&windows(r"C:\a\b")));
    assert!(windows(r"C:.\a").same(&windows(r"C:a")));
}

#[test]
fn roots_of_prefixes() {
    assert_eq!(windows(r"\\server\share").parts.len(), 2);
    assert_eq!(windows(r"\\.\COM42").parts.len(), 2);
    assert_eq!(windows(r"\\?\C:").parts.len(), 1);
    assert_eq!(windows(r"C:").parts.len(), 1);
    assert_eq!(windows(r"C:\").parts.len(), 2);
}

#[test]
fn joining_to_a_verbatim_path_takes_dots_at_their_word() {
    let base = windows(r"\\?\C:\a\b");
    assert_eq!(base.join(&windows(r"..\.\c")).display(), r"\\?\C:\a\c");
    assert_eq!(base.join(&windows(r"\c")).display(), r"\\?\C:\c");
    assert_eq!(base.join(&windows("c/d")).display(), r"\\?\C:\a\b\c\d");
    assert_eq!(base.join(&windows("")).display(), r"\\?\C:\a\b\");
    assert_eq!(base.join(&windows(r"D:\c")).display(), r"D:\c");
    assert_eq!(windows(r"\\?\C:").join(&windows("c")).display(), r"\\?\C:\c");
    assert_eq!(windows(r"\\?\C:").join(&windows("")).display(), r"\\?\C:\");
    assert_eq!(windows(r"\\?\C:\").join(&windows("..")).display(), r"\\?\C:\");
    assert_eq!(windows(r"C:\a").join(&windows(r"..\c")).display(), r"C:\a\..\c");
}

#[test]
fn white_space_is_what_unicode_calls_so() {
    let listed = |ch: char| {
        matches!(
            ch,
            '\u{9}'..='\u{d}'
                | ' '
                | '\u{85}'
                | '\u{a0}'
                | '\u{1680}'
                | '\u{2000}'..='\u{200a}'
                | '\u{2028}'
                | '\u{2029}'
                | '\u{202f}'
                | '\u{205f}'
                | '\u{3000}'
        )
    };
    for ch in '\0'..=char::MAX {
        assert_eq!(text::trimmed(&ch.to_string()).is_empty(), listed(ch), "{:?}", ch);
    }
}

#[test]
fn idle_separators_and_dots_are_still_shown() {
    for path in ["a//b", "./a/./b/", "/a/", "//a", "///", ".", "..//.", "./.", "a/.", "/./a//"] {
        assert_eq!(unix(path).display(), path);
    }
    let odd = [
        r"C:\a\\b\.\c\",
        "C:a/b",
        r"c:/a\.\b",
        r"\\server\share",
        r"\\server/share\\x",
        r"\\?\C:\a/b",
        r"\\?\C:/a\\b\",
        r"\\?\UNC\s\h\.\a",
        r"\\.\COM42\.",
        "a/./b",
    ];
    for path in odd {
        assert_eq!(windows(path).display(), path);
    }
}

#[test]
fn joined_paths_are_shown_as_both_were_written() {
    assert_eq!(unix("/out").join(&unix("a//b")).display(), "/out/a//b");
    assert_eq!(unix("a/").join(&unix("b//c/")).display(), "a/b//c/");
    assert_eq!(unix("/out").join(&unix("")).display(), "/out/");
    assert_eq!(unix("/out").join(&unix(".")).display(), "/out/.");
    assert_eq!(unix("/out").join(&unix("./a//b")).display(), "/out/./a//b");
    assert_eq!(unix("/out").join(&unix(".//")).join(&unix("a")).display(), "/out/.//a");
    assert_eq!(unix("").join(&unix("a")).display(), "a");
    assert_eq!(unix("a/.").join(&unix("b")).display(), "a/./b");
    assert_eq!(unix("/out/./x").join(&unix("//b//c")).display(), "//b//c");
    assert!(unix("/out").join(&unix("./a//b")).same(&unix("/out/a/b")));
    assert!(unix("/out").join(&unix(".//")).join(&unix("a")).same(&unix("/out/a")));
    assert_eq!(windows("C:").join(&windows("a")).display(), "C:a");
    assert_eq!(windows("C:.").join(&windows("a")).display(), r"C:.\a");
    assert_eq!(windows(r"C:\a").join(&windows("b/c")).display(), r"C:\a\b/c");
    assert_eq!(windows(r"C:\a/").join(&windows("b")).display(), r"C:\a/b");
    assert_eq!(windows(r"C:/a").join(&windows(r"\b//c")).display(), r"C:\b//c");
    assert_eq!(windows(r"\\s\h").join(&windows("x")).display(), r"\\s\h\x");
    assert_eq!(windows(r"\\s\h").join(&windows(r"\x")).display(), r"\\s\h\x");
    assert_eq!(windows(r"\\s\h\a").join(&windows(r"D:/x")).display(), "D:/x");
}

#[test]
fn what_follows_a_folder_is_shown_as_it_was_written() {
    let rest = unix("/a//b/./c/").strip_prefix(&unix("/a")).expect("below");
    assert_eq!(rest.display(), "b/./c");
    let rest = unix("/a//b/").strip_prefix(&unix("")).expect("below");
    assert_eq!(rest.display(), "/a//b");
    let rest = windows("C:/a//b").strip_prefix(&windows("C:")).expect("below");
    assert_eq!(rest.display(), "/a//b");
    let rest = windows("C:/a//b").strip_prefix(&windows(r"c:\")).expect("below");
    assert_eq!(rest.display(), "a//b");
    let rest = windows(r"C:.\a").strip_prefix(&windows("C:")).expect("below");
    assert_eq!(rest.display(), r".\a");
    let rest = windows(r"C:.\.").strip_prefix(&windows("")).expect("below");
    assert_eq!(rest.display(), "C:.");
}

#[test]
fn parts_are_written_with_one_separator_between_them() {
    let parts = |path: &RomPath| RomPath::of_parts(path.style, path.parts.clone());
    assert_eq!(parts(&unix("/a//b/./c/")).display(), "/a/b/c");
    assert_eq!(parts(&windows("C:/a//b")).display(), r"C:\a\b");
    assert_eq!(parts(&windows("C:a//b")).display(), r"C:a\b");
    assert_eq!(parts(&windows(r"\\?\C:\a\\b")).display(), r"\\?\C:\a\b");
}
