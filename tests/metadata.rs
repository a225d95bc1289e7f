use letterboxd_sync::files::{is_accepted_extension, is_accepted_file, is_hidden, keep_entry};
use letterboxd_sync::metadata::{
    candidate_for, guess_metadata, guess_metadata_with_regex, metadata_from_groups, Metadata,
};
use letterboxd_sync::text::parse_u16;

#[test]
fn dotted_name_with_year() {
    let m = guess_metadata("films/The.Matrix.1999.1080p.BluRay.mkv").unwrap();
    assert_eq!(m.title, "The Matrix");
    assert_eq!(m.year, Some(1999));
}

#[test]
fn year_in_parentheses() {
    let m = guess_metadata_with_regex("Amelie (2001)").unwrap();
    assert_eq!(m.title, "Amelie");
    assert_eq!(m.year, Some(2001));
    assert_eq!(m.to_string(), "Amelie (2001)");
}

#[test]
fn year_in_brackets() {
    let m = guess_metadata_with_regex("Heat [1995] remux").unwrap();
    assert_eq!(m.title, "Heat");
    assert_eq!(m.year, Some(1995));
}

#[test]
fn year_between_spaces() {
    let m = guess_metadata_with_regex("Alien 1979 directors cut").unwrap();
    assert_eq!(m.title, "Alien");
    assert_eq!(m.year, Some(1979));
}

#[test]
fn no_year_keeps_whole_stem() {
    assert!(guess_metadata_with_regex("Nostalgia").is_none());
    let m = guess_metadata("/data/Nostalgia.mp4").unwrap();
    assert_eq!(m.title, "Nostalgia");
    assert_eq!(m.year, None);
    assert_eq!(m.to_string(), "Nostalgia");
}

#[test]
fn no_file_stem_gives_nothing() {
    assert!(guess_metadata("").is_none());
    assert!(guess_metadata("/").is_none());
}

#[test]
fn query_text_of_metadata() {
    let m = Metadata { title: "Stalker".to_string(), year: Some(979) };
    assert_eq!(m.to_string(), "Stalker (979)");
}

#[test]
fn candidate_is_keyed_by_file_name() {
    let c = candidate_for("Heat (1995).mkv").unwrap();
    assert_eq!(c.name, "Heat (1995).mkv");
    assert_eq!(c.query, "Heat (1995)");
}

#[test]
fn parses_u16_like_std() {
    assert_eq!(parse_u16("1999"), Some(1999));
    assert_eq!(parse_u16("+12"), Some(12));
    assert_eq!(parse_u16("0065535"), Some(65535));
    assert_eq!(parse_u16("65536"), None);
    assert_eq!(parse_u16(""), None);
    assert_eq!(parse_u16("+"), None);
    assert_eq!(parse_u16("-1"), None);
    assert_eq!(parse_u16("12a"), None);
    for s in ["0", "7", "2024", "+65535", "99999", "1 2"] {
        assert_eq!(parse_u16(s), s.parse::<u16>().ok());
    }
}

#[test]
fn hidden_entries() {
    assert!(is_hidden(Some(".git")));
    assert!(!is_hidden(Some(".")));
    assert!(!is_hidden(Some("film.mkv")));
    assert!(!is_hidden(Some("")));
    assert!(!is_hidden(None));
}

#[test]
fn film_extensions() {
    for e in ["mkv", "mp4", "avi", "m4v"] {
        assert!(is_accepted_extension(e));
    }
    assert!(!is_accepted_extension("MKV"));
    assert!(!is_accepted_extension("srt"));
    assert!(!is_accepted_extension(""));
    assert!(is_accepted_file(false, None));
    assert!(is_accepted_file(true, Some("avi")));
    assert!(!is_accepted_file(true, None));
    assert!(!is_accepted_file(true, Some("txt")));
}

#[test]
fn entries_kept_by_walk() {
    assert!(keep_entry(Some("films"), false, None));
    assert!(keep_entry(Some("a.mkv"), true, Some("mkv")));
    assert!(!keep_entry(Some(".cache"), false, None));
    assert!(!keep_entry(Some("notes.txt"), true, Some("txt")));
}

fn groups(g: &[Option<&str>]) -> Vec<Option<String>> {
    g.iter().map(|o| o.map(|s| s.to_string())).collect()
}

#[test]
fn metadata_from_title_and_year_groups() {
    let m = metadata_from_groups(&groups(&[Some("x"), Some(" Blade.Runner "), None, None, Some("1982"), None]))
        .unwrap();
    assert_eq!(m.title, "Blade Runner");
    assert_eq!(m.year, Some(1982));
}

#[test]
fn metadata_year_from_first_group_holding_a_number() {
    let m = metadata_from_groups(&groups(&[Some("x"), Some("Ran"), Some("\u{0661}985"), None, Some("1985")]))
        .unwrap();
    assert_eq!(m.title, "Ran");
    assert_eq!(m.year, Some(1985));
    let m = metadata_from_groups(&groups(&[Some("x"), Some("Ran"), Some("99999")])).unwrap();
    assert_eq!(m.year, None);
}

#[test]
fn metadata_needs_a_title_group() {
    assert!(metadata_from_groups(&groups(&[Some("x")])).is_none());
    assert!(metadata_from_groups(&groups(&[Some("x"), None, Some("1999")])).is_none());
    assert!(metadata_from_groups(&groups(&[])).is_none());
}

#[test]
fn title_is_trimmed_of_unicode_white_space() {
    let m = metadata_from_groups(&groups(&[Some("x"), Some("\u{3000}\t.Stalker.\u{a0}")])).unwrap();
    assert_eq!(m.title, "Stalker");
    assert_eq!(m.year, None);
}

#[test]
fn year_text_in_query() {
    for y in [0u16, 7, 10, 1999, 65535] {
        let m = Metadata { title: "T".to_string(), year: Some(y) };
        assert_eq!(m.to_string(), format!("T ({})", y));
    }
}
