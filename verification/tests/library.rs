use termusic_core::library::{
    filetype_supported, needs_destructive_migration, needs_insert, plan_deletes, plan_inserts,
    plan_replacements, sort_names_by_pinyin, sort_tracks_by_pinyin, track_to_record, ScannedFile,
    SearchCriteria, TrackForDB, TrackMeta,
};
use termusic_core::strings::{parse_u64, str_eq, str_lex_le, str_lex_lt, u64_to_dec_string};

fn record(name: &str, file: &str, last_modified: &str) -> TrackForDB {
    TrackForDB {
        id: 1,
        artist: "Artist".to_string(),
        title: "Title".to_string(),
        album: "Album".to_string(),
        genre: "Genre".to_string(),
        file: file.to_string(),
        duration: 180,
        name: name.to_string(),
        ext: "mp3".to_string(),
        directory: "/m".to_string(),
        last_modified: last_modified.to_string(),
    }
}

fn scanned(name: &str, file: &str, last_modified: u64) -> ScannedFile {
    ScannedFile {
        file: file.to_string(),
        name: name.to_string(),
        last_modified,
    }
}

#[test]
fn new_file_is_inserted_exactly_once() {
    let files = vec![scanned("a.mp3", "/m/a.mp3", 100)];
    let stored: Vec<TrackForDB> = vec![];
    let plan = plan_inserts(files, &stored);
    assert_eq!(plan.len(), 1);
    assert_eq!(plan[0].file, "/m/a.mp3");
}

#[test]
fn missing_file_is_deleted_exactly_once() {
    let stored = vec![
        record("gone.mp3", "/m/gone.mp3", "100"),
        record("a.mp3", "/m/a.mp3", "100"),
    ];
    let existing = vec!["/m/a.mp3".to_string()];
    let plan = plan_deletes(stored, &existing);
    assert_eq!(plan, vec!["/m/gone.mp3".to_string()]);
}

#[test]
fn sync_pass_is_idempotent_without_changes() {
    let files = vec![scanned("a.mp3", "/m/a.mp3", 100)];
    let stored = vec![record("a.mp3", "/m/a.mp3", "100")];
    let existing = vec!["/m/a.mp3".to_string()];
    let inserts = plan_inserts(files, &stored);
    assert_eq!(inserts.len(), 0);
    let deletes = plan_deletes(stored, &existing);
    assert_eq!(deletes.len(), 0);
}

#[test]
fn stale_record_triggers_rescan() {
    let stored = vec![record("a.mp3", "/m/a.mp3", "50")];
    assert!(needs_insert(&scanned("a.mp3", "/m/a.mp3", 100), &stored));
    // a fresh record blocks
    let fresh = vec![record("a.mp3", "/m/a.mp3", "100")];
    assert!(!needs_insert(&scanned("a.mp3", "/m/a.mp3", 100), &fresh));
    // an unreadable stamp counts as stale
    let broken = vec![record("a.mp3", "/m/a.mp3", "not-a-number")];
    assert!(needs_insert(&scanned("a.mp3", "/m/a.mp3", 100), &broken));
}

#[test]
fn stale_record_is_replaced_not_duplicated() {
    let files = vec![scanned("a.mp3", "/m/a.mp3", 100)];
    let stored = vec![
        record("a.mp3", "/m/a.mp3", "50"),
        record("b.mp3", "/m/b.mp3", "100"),
    ];
    // the stale row of the rescanned file is deleted before the
    // fresh one is inserted; the unrelated record stays
    let replacements = plan_replacements(&files, &stored);
    assert_eq!(replacements, vec!["/m/a.mp3".to_string()]);
    let inserts = plan_inserts(files, &stored);
    assert_eq!(inserts.len(), 1);
    assert_eq!(inserts[0].name, "a.mp3");
}

#[test]
fn fresh_records_are_not_replaced() {
    let files = vec![scanned("a.mp3", "/m/a.mp3", 100)];
    let stored = vec![record("a.mp3", "/m/a.mp3", "100")];
    let replacements = plan_replacements(&files, &stored);
    assert_eq!(replacements.len(), 0);
}

#[test]
fn supported_filetypes_go_by_extension() {
    assert!(filetype_supported("/m/song.mp3"));
    assert!(filetype_supported("song.flac"));
    assert!(filetype_supported("a.b/c.ogg"));
    assert!(!filetype_supported("/m/readme.txt"));
    assert!(!filetype_supported("noextension"));
    assert!(!filetype_supported("trailingdot."));
}

#[test]
fn decimal_round_trip() {
    assert_eq!(parse_u64("0"), Some(0));
    assert_eq!(parse_u64("123"), Some(123));
    assert_eq!(parse_u64(""), None);
    assert_eq!(parse_u64("12a"), None);
    assert_eq!(parse_u64("18446744073709551615"), Some(u64::MAX));
    assert_eq!(parse_u64("18446744073709551616"), None);
    assert_eq!(u64_to_dec_string(0), "0".to_string());
    assert_eq!(u64_to_dec_string(12345), "12345".to_string());
    assert_eq!(parse_u64(&u64_to_dec_string(u64::MAX)), Some(u64::MAX));
}

#[test]
fn string_order_helpers() {
    assert!(str_eq("abc", "abc"));
    assert!(!str_eq("abc", "abd"));
    assert!(str_lex_le("abc", "abd"));
    assert!(str_lex_lt("ANNETT", "GALA"));
    assert!(!str_lex_lt("abc", "abc"));
    assert!(str_lex_lt("GALA", "chen"));
}

#[test]
fn track_record_defaults() {
    let m = TrackMeta {
        artist: None,
        title: None,
        album: None,
        genre: None,
        file: None,
        duration_secs: 240,
        name: None,
        ext: None,
        directory: None,
        last_modified_secs: 1700000000,
    };
    let r = track_to_record(m);
    assert_eq!(r.id, 0);
    assert_eq!(r.artist, "Unknown Artist");
    assert_eq!(r.title, "Unknown Title");
    assert_eq!(r.album, "empty");
    assert_eq!(r.genre, "no type");
    assert_eq!(r.file, "Unknown File");
    assert_eq!(r.duration, 240);
    assert_eq!(r.name, "");
    assert_eq!(r.ext, "");
    assert_eq!(r.directory, "");
    assert_eq!(r.last_modified, "1700000000");
}

#[test]
fn track_record_keeps_given_tags() {
    let m = TrackMeta {
        artist: Some("A".to_string()),
        title: Some("T".to_string()),
        album: Some("L".to_string()),
        genre: Some("G".to_string()),
        file: Some("/m/a.mp3".to_string()),
        duration_secs: 1,
        name: Some("a.mp3".to_string()),
        ext: Some("mp3".to_string()),
        directory: Some("/m".to_string()),
        last_modified_secs: 7,
    };
    let r = track_to_record(m);
    assert_eq!(r.artist, "A");
    assert_eq!(r.file, "/m/a.mp3");
    assert_eq!(r.last_modified, "7");
}

#[test]
fn criteria_from_index_and_column() {
    assert_eq!(SearchCriteria::from(0), SearchCriteria::Artist);
    assert_eq!(SearchCriteria::from(1), SearchCriteria::Album);
    assert_eq!(SearchCriteria::from(2), SearchCriteria::Genre);
    assert_eq!(SearchCriteria::from(3), SearchCriteria::Directory);
    assert_eq!(SearchCriteria::from(9), SearchCriteria::Artist);
    assert_eq!(SearchCriteria::Artist.column_name(), "artist");
    assert_eq!(SearchCriteria::Directory.column_name(), "directory");
}

#[test]
fn migration_is_destructive_only_forward() {
    assert!(needs_destructive_migration(2, 1));
    assert!(!needs_destructive_migration(1, 1));
    assert!(!needs_destructive_migration(1, 2));
}

fn mixed_names() -> Vec<String> {
    vec![
        "乐队Gala乐队".to_string(),
        "Annett Louisan".to_string(),
        "陈一发儿".to_string(),
        "Gala乐队".to_string(),
    ]
}

#[test]
fn mixed_script_names_sort_by_transliteration() {
    let sorted = sort_names_by_pinyin(mixed_names());
    // keys: leduiGALAledui, ANNETT LOUISAN, chenyifaer, GALAledui
    assert_eq!(
        sorted,
        vec![
            "Annett Louisan".to_string(),
            "Gala乐队".to_string(),
            "陈一发儿".to_string(),
            "乐队Gala乐队".to_string(),
        ]
    );
}

#[test]
fn transliteration_sort_is_deterministic() {
    let once = sort_names_by_pinyin(mixed_names());
    let twice = sort_names_by_pinyin(mixed_names());
    assert_eq!(once, twice);
}

#[test]
fn transliteration_sort_is_stable() {
    let a = record("same.mp3", "/m/1.mp3", "1");
    let mut b = record("same.mp3", "/m/2.mp3", "1");
    b.id = 2;
    let sorted = sort_tracks_by_pinyin(vec![a, b]);
    assert_eq!(sorted.len(), 2);
    assert_eq!(sorted[0].id, 1);
    assert_eq!(sorted[1].id, 2);
}

#[test]
fn tracks_sort_by_name_key() {
    let sorted = sort_tracks_by_pinyin(vec![
        record("陈一发儿.mp3", "/m/c.mp3", "1"),
        record("Annett.mp3", "/m/a.mp3", "1"),
    ]);
    assert_eq!(sorted[0].file, "/m/a.mp3");
    assert_eq!(sorted[1].file, "/m/c.mp3");
}
