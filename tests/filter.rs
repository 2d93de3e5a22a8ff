use league_toolkit::file::LeagueFileKind;
use wadtools::classify::kind_matches;
use wadtools::{chunk_matches, create_filter_pattern, path_matches};

#[test]
fn pattern_is_case_insensitive_by_default() {
    let p = create_filter_pattern(Some("icons".to_string())).unwrap().unwrap();
    assert_eq!(p.as_str(), "(?i)icons");
    assert!(path_matches(Some(&p), "UI/Icons/play.png"));
}

#[test]
fn explicit_case_flag_is_kept() {
    let p = create_filter_pattern(Some("(?-i)icons".to_string())).unwrap().unwrap();
    assert_eq!(p.as_str(), "(?-i)icons");
    assert!(!path_matches(Some(&p), "UI/Icons/play.png"));
    assert!(path_matches(Some(&p), "ui/icons/play.png"));
    let q = create_filter_pattern(Some("(?i)ICONS".to_string())).unwrap().unwrap();
    assert_eq!(q.as_str(), "(?i)ICONS");
}

#[test]
fn no_pattern_admits_everything() {
    assert!(create_filter_pattern(None).unwrap().is_none());
    assert!(path_matches(None, "anything/at/all.bin"));
}

#[test]
fn invalid_pattern_is_an_error() {
    let e = create_filter_pattern(Some("(unclosed".to_string())).err().unwrap();
    assert_eq!(e.pattern, "(unclosed");
}

#[test]
fn kind_allow_list() {
    let list = vec![LeagueFileKind::Png, LeagueFileKind::Texture];
    assert!(kind_matches(Some(&list), LeagueFileKind::Png));
    assert!(!kind_matches(Some(&list), LeagueFileKind::PropertyBin));
    assert!(kind_matches(None, LeagueFileKind::Unknown));
    assert!(!kind_matches(Some(&vec![]), LeagueFileKind::Png));
}

#[test]
fn filter_needs_both_path_and_kind() {
    let p = create_filter_pattern(Some("icons".to_string())).unwrap().unwrap();
    let textures = vec![LeagueFileKind::Texture];
    let path = "UI/Icons/play.png";
    assert!(!chunk_matches(Some(&p), Some(&textures), path, LeagueFileKind::Png));
    assert!(chunk_matches(Some(&p), Some(&textures), path, LeagueFileKind::Texture));
    assert!(!chunk_matches(Some(&p), Some(&textures), "UI/other.tex", LeagueFileKind::Texture));
    assert!(chunk_matches(None, None, path, LeagueFileKind::Unknown));
}
