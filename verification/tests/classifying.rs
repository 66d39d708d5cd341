use std::io::{Cursor, Write};

use move_roms::classifier::{
    extract_bracket_tokens, inspect_member_extensions, normalize_text_for_matching, ArchiveEntry,
    ArchiveKind, Classification, Classifier, PlatformIndex, PlatformRomTypeIndex,
    PlatformRomTypeRule, PlatformRule,
};
use move_roms::model::Confidence;
use move_roms::paths::{PathStyle, RomPath};

fn texts(list: &[&str]) -> Vec<String> {
    list.iter().map(|text| text.to_string()).collect()
}

fn rule(slug: &str) -> PlatformRule {
    PlatformRule {
        slug: slug.to_string(),
        aliases: Vec::new(),
        extensions: Vec::new(),
        rom_extensions: Vec::new(),
        folder_hints: Vec::new(),
        dat_tokens: Vec::new(),
    }
}

fn rom_types(slug: &str, extensions: &[&str]) -> PlatformRomTypeRule {
    PlatformRomTypeRule { slug: slug.to_string(), rom_extensions: texts(extensions) }
}

fn sample() -> Classifier {
    let mut gba = rule("gba");
    gba.aliases = texts(&["Game Boy Advance", "--"]);
    gba.folder_hints = texts(&["GBA roms"]);
    gba.dat_tokens = texts(&["AGB"]);
    let mut nes = rule("nes");
    nes.folder_hints = texts(&["Nintendo"]);
    let mut fds = rule("fds");
    fds.extensions = texts(&["FDS", "Zip", "bin"]);
    let index = PlatformIndex { platforms: vec![gba, nes, fds] };
    let types = PlatformRomTypeIndex {
        archive_extensions: texts(&["ZIP", "7z", "rar"]),
        platforms: vec![rom_types("gba", &["GBA"]), rom_types("nes", &["nes", "bin"])],
    };
    Classifier::from_embedded(&index, &types)
}

fn unix(text: &str) -> RomPath {
    RomPath::parse(PathStyle::Unix, text)
}

fn classify(path: &str) -> Classification {
    sample().classify(&unix(path), &None)
}

fn file(name: &str) -> ArchiveEntry {
    ArchiveEntry::File(name.to_string())
}

/// The entries of a zip archive.
fn list_zip(bytes: Vec<u8>) -> Option<Vec<ArchiveEntry>> {
    let mut archive = zip::ZipArchive::new(Cursor::new(bytes)).ok()?;
    let mut entries = Vec::new();
    for index in 0..archive.len() {
        entries.push(match archive.by_index(index) {
            Ok(entry) if entry.is_dir() => ArchiveEntry::Folder,
            Ok(entry) => ArchiveEntry::File(entry.name().to_string()),
            Err(_) => ArchiveEntry::Unreadable,
        });
    }
    Some(entries)
}

/// The entries of a 7z archive.
fn list_7z(bytes: Vec<u8>) -> Option<Vec<ArchiveEntry>> {
    let length = bytes.len() as u64;
    let archive = sevenz_rust::Archive::read(&mut Cursor::new(bytes), length, &[]).ok()?;
    Some(
        archive
            .files
            .iter()
            .map(|entry| {
                if entry.is_directory() {
                    ArchiveEntry::Folder
                } else {
                    ArchiveEntry::File(entry.name().to_string())
                }
            })
            .collect(),
    )
}

#[test]
fn classifies_zip_by_member_rom_extension() {
    let mut zip = zip::ZipWriter::new(Cursor::new(Vec::new()));
    zip.start_file("Disney.gba", zip::write::SimpleFileOptions::default()).expect("start zip entry");
    zip.write_all(b"test-rom").expect("write zip contents");
    let bytes = zip.finish().expect("finish zip").into_inner();

    let classifier = sample();
    let archive_path = unix("/tmp/zip/Disney.zip");
    assert_eq!(classifier.archive_to_list(&archive_path), Some(ArchiveKind::Zip));
    let classification = classifier.classify(&archive_path, &list_zip(bytes));

    assert_eq!(classification.platform_slug.as_deref(), Some("gba"));
    assert_eq!(classification.confidence, Confidence::High);
    assert_eq!(classification.reason, "archive member extension .gba");
}

#[test]
fn classifies_7z_by_member_rom_extension() {
    let mut archive = sevenz_rust::SevenZWriter::new(Cursor::new(Vec::new())).expect("classifier");
    let mut entry = sevenz_rust::SevenZArchiveEntry::new();
    entry.name = String::from("Disney.gba");
    entry.has_stream = true;
    archive
        .push_archive_entry(entry, Some(Cursor::new(b"test-rom".to_vec())))
        .expect("write rom file");
    let bytes = archive.finish().expect("create 7z archive").into_inner();

    let classifier = sample();
    let archive_path = unix("/tmp/src/Disney.7z");
    assert_eq!(classifier.archive_to_list(&archive_path), Some(ArchiveKind::SevenZip));
    let classification = classifier.classify(&archive_path, &list_7z(bytes));

    assert_eq!(classification.platform_slug.as_deref(), Some("gba"));
    assert_eq!(classification.confidence, Confidence::High);
    assert_eq!(classification.reason, "archive member extension .gba");
}

#[test]
fn extension_alone_is_high() {
    let found = classify("/in/Some.GBA");
    assert_eq!(found.platform_slug.as_deref(), Some("gba"));
    assert_eq!(found.confidence, Confidence::High);
    assert_eq!(found.reason, "extension .gba");
}

#[test]
fn all_signals_are_told_in_order() {
    let listing = Some(vec![file("x.GBA")]);
    let found = sample().classify(&unix("/My gba roms/Game-Boy Advance [agb].zip"), &listing);
    assert_eq!(found.platform_slug.as_deref(), Some("gba"));
    assert_eq!(found.confidence, Confidence::Exact);
    assert_eq!(
        found.reason,
        "folder hint, filename alias, dat token, archive member extension .gba"
    );
}

#[test]
fn two_signals_reach_exact() {
    let found = classify("/gba roms/x.gba");
    assert_eq!(found.confidence, Confidence::Exact);
    assert_eq!(found.reason, "extension .gba, folder hint");
}

#[test]
fn equal_scores_are_ambiguous() {
    let found = classify("/in/x.bin");
    assert_eq!(found.platform_slug, None);
    assert_eq!(found.confidence, Confidence::Ambiguous);
    assert_eq!(found.reason, "multiple platforms matched with equal score");
}

#[test]
fn higher_score_resolves_a_tie() {
    let found = classify("/Nintendo/x.bin");
    assert_eq!(found.platform_slug.as_deref(), Some("nes"));
    assert_eq!(found.confidence, Confidence::Exact);
}

#[test]
fn nothing_known_is_unknown() {
    let found = classify("/in/readme.txt");
    assert_eq!(found.platform_slug, None);
    assert_eq!(found.confidence, Confidence::Unknown);
    assert_eq!(found.reason, "no platform match");
}

#[test]
fn alias_must_be_whole_words() {
    assert_eq!(classify("/in/My Game Boy Advance.txt").reason, "filename alias");
    assert_eq!(classify("/in/My Game Boy Advanced.txt").platform_slug, None);
}

#[test]
fn folder_hints_reach_six_levels() {
    assert_eq!(classify("/gba roms/2/3/4/5/6.txt").reason, "folder hint");
    assert_eq!(classify("/gba roms/1/2/3/4/5/6.txt").platform_slug, None);
}

#[test]
fn listing_counts_only_for_archives_that_are_looked_at() {
    let classifier = sample();
    let listing = Some(vec![file("x.gba")]);
    assert_eq!(classifier.archive_to_list(&unix("/in/x.rar")), None);
    assert_eq!(classifier.classify(&unix("/in/x.rar"), &listing).platform_slug, None);
    assert_eq!(classifier.archive_to_list(&unix("/in/x.txt")), None);
    assert_eq!(classifier.classify(&unix("/in/x.txt"), &listing).platform_slug, None);
}

#[test]
fn entries_past_the_limit_are_not_seen() {
    let mut entries: Vec<ArchiveEntry> = (0..199).map(|_| ArchiveEntry::Folder).collect();
    entries.push(file("x.gba"));
    let classifier = sample();
    let path = unix("/in/x.zip");
    assert_eq!(classifier.classify(&path, &Some(entries)).platform_slug.as_deref(), Some("gba"));
    let mut entries: Vec<ArchiveEntry> = (0..200).map(|_| ArchiveEntry::Folder).collect();
    entries.push(file("x.gba"));
    assert_eq!(classifier.classify(&path, &Some(entries)).platform_slug, None);
}

#[test]
fn member_extensions_are_each_once_and_without_nested_archives() {
    let entries = vec![
        file("a/b.GBA"),
        ArchiveEntry::Unreadable,
        file("readme"),
        file("inner.zip"),
        file("inner.7z"),
        file("inner.RAR"),
        file("inner.tar"),
        file("inner.gz"),
        file("c.nes"),
        ArchiveEntry::Folder,
        file("d.gba"),
    ];
    let found = inspect_member_extensions(PathStyle::Unix, &entries, 200);
    assert_eq!(found, Some(texts(&["gba", "nes"])));
    assert_eq!(inspect_member_extensions(PathStyle::Unix, &entries, 1), Some(texts(&["gba"])));
    assert_eq!(inspect_member_extensions(PathStyle::Unix, &entries, 0), None);
}

#[test]
fn allowed_extensions_are_those_of_files_and_archives() {
    let allowed = sample().allowed_extensions();
    for extension in ["gba", "nes", "bin", "fds", "zip", "7z", "rar"] {
        assert!(allowed.contains(extension), "{}", extension);
    }
    assert_eq!(allowed.len(), 7);
    assert!(!allowed.contains("GBA"));
    assert!(!allowed.contains("txt"));
}

#[test]
fn later_list_for_a_slug_replaces_an_earlier_one() {
    let index = PlatformIndex { platforms: vec![rule("a")] };
    let types = PlatformRomTypeIndex {
        archive_extensions: Vec::new(),
        platforms: vec![rom_types("a", &["one"]), rom_types("a", &["two"])],
    };
    let allowed = Classifier::from_embedded(&index, &types).allowed_extensions();
    assert!(allowed.contains("two"));
    assert!(!allowed.contains("one"));
}

#[test]
fn words_are_lower_case_and_one_space_apart() {
    assert_eq!(normalize_text_for_matching("  Super-Mario_World (USA)!"), "super mario world usa");
    assert_eq!(normalize_text_for_matching("Pokémon"), "pok mon");
    assert_eq!(normalize_text_for_matching("---"), "");
}

#[test]
fn bracket_tokens_are_trimmed_and_lower_case() {
    assert_eq!(extract_bracket_tokens("Game ( USA ) [!] rest"), texts(&["usa", "!"]));
    assert_eq!(extract_bracket_tokens("a (\u{a0}X\u{2003}) b"), texts(&["x"]));
}

#[test]
fn brackets_need_not_match() {
    assert_eq!(extract_bracket_tokens("a [b (c] d) e"), texts(&["c"]));
    assert_eq!(extract_bracket_tokens("() [ ]"), texts(&[""]));
    assert_eq!(extract_bracket_tokens("a ) b ( c"), texts(&[]));
}

#[test]
fn order_of_rules_is_idle() {
    let build = |reversed: bool| {
        let mut one = rule("one");
        one.rom_extensions = Vec::new();
        one.folder_hints = texts(&["shelf"]);
        let two = rule("two");
        let platforms = if reversed { vec![two, one] } else { vec![one, two] };
        let types = PlatformRomTypeIndex {
            archive_extensions: Vec::new(),
            platforms: vec![rom_types("one", &["bin"]), rom_types("two", &["bin"])],
        };
        Classifier::from_embedded(&PlatformIndex { platforms }, &types)
    };
    for path in ["/shelf/a.bin", "/other/a.bin", "/other/a.txt"] {
        let first = build(false).classify(&unix(path), &None);
        let second = build(true).classify(&unix(path), &None);
        assert_eq!(first.platform_slug, second.platform_slug);
        assert_eq!(first.confidence, second.confidence);
        assert_eq!(first.reason, second.reason);
    }
}

#[test]
fn case_is_idle_in_classifying() {
    let one = classify("/GBA Roms/Game Boy Advance [AGB].GBA");
    let other = classify("/gba roms/gAME bOY aDVANCE [agb].gba");
    assert_eq!(one.platform_slug, other.platform_slug);
    assert_eq!(one.reason, other.reason);
    assert_eq!(one.reason, "extension .gba, folder hint, filename alias, dat token");
}

#[test]
fn normalizing_twice_changes_nothing() {
    let once = normalize_text_for_matching("  Super-Mario_World (USA)!");
    assert_eq!(normalize_text_for_matching(&once), once);
}

#[test]
fn copy_of_a_classification_says_the_same() {
    let found = classify("/in/x.gba");
    let copy = found.clone();
    assert_eq!(copy.platform_slug, found.platform_slug);
    assert_eq!(copy.confidence, found.confidence);
    assert_eq!(copy.reason, found.reason);
}

#[test]
fn case_of_a_prefix_is_idle_in_classifying() {
    let windows = |text: &str| {
        sample().classify(&RomPath::parse(PathStyle::Windows, text), &None)
    };
    let one = windows(r"\\Server\Share\GBA Roms\Game.GBA");
    for path in [r"\\SERVER\share\gba roms\game.gba", r"\\server/SHARE\\gba ROMS\.\game.gba"] {
        let other = windows(path);
        assert_eq!(one.platform_slug, other.platform_slug);
        assert_eq!(one.confidence, other.confidence);
        assert_eq!(one.reason, other.reason);
    }
    assert_eq!(one.platform_slug.as_deref(), Some("gba"));
}

#[test]
fn token_begins_after_the_nearest_bracket() {
    assert_eq!(extract_bracket_tokens("[a](b)"), texts(&["a", "b"]));
    assert_eq!(extract_bracket_tokens("([A] b)"), texts(&["a"]));
    assert_eq!(extract_bracket_tokens("[]x]"), texts(&[]));
    assert_eq!(extract_bracket_tokens("(( x )) (Y"), texts(&["x"]));
}
