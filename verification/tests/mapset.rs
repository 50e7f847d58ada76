use bathbot::mapset::{adjust_title, GameMapset};

fn mapset(artist: &str, title: &str) -> GameMapset {
    GameMapset::new(7, artist.to_owned(), title.to_owned())
}

#[test]
fn artist_and_title_are_lowered() {
    let set = mapset("Camellia", "GHOST");
    assert_eq!(set.mapset_id, 7);
    assert_eq!(set.artist(), "camellia");
    assert_eq!(set.title(), "ghost");
}

#[test]
fn only_ascii_capitals_are_lowered() {
    let set = mapset("ÄÖ Z-A", "É@[`{ Q");
    assert_eq!(set.artist(), "ÄÖ z-a");
    assert_eq!(set.title(), "É@[`{ q");
}

#[test]
fn brackets_are_left_out_of_the_title() {
    assert_eq!(mapset("a", "Blue Zenith (TV Size)").title(), "blue zenith");
    assert_eq!(mapset("a", "(intro) Song").title(), "song");
    assert_eq!(mapset("a", "One (a) two (b) three").title(), "one  three");
    assert_eq!(mapset("a", "()").title(), "");
}

#[test]
fn featured_artists_are_left_out_of_the_title() {
    assert_eq!(mapset("a", "Sidetracked Day feat. Someone").title(), "sidetracked day");
    assert_eq!(mapset("a", "Sidetracked Day ft. Someone").title(), "sidetracked day");
    assert_eq!(mapset("a", "Song ft. x feat. y").title(), "song ft. x");
    assert_eq!(mapset("a", "feat. y").title(), "");
}

#[test]
fn brackets_go_before_featured_artists() {
    assert_eq!(mapset("a", "  Song feat. x (Cut Ver.)").title(), "song");
    assert_eq!(mapset("a", "Song (feat. x) live ft. y").title(), "song  live");
    assert_eq!(mapset("a", " (a) Song ").title(), "song");
}

#[test]
fn only_the_end_is_trimmed_where_there_is_no_bracket() {
    assert_eq!(mapset("a", "  Song \t feat. x").title(), "  song");
}

#[test]
fn a_plain_title_is_not_adjusted() {
    assert_eq!(adjust_title("just a song"), None);
    assert_eq!(adjust_title("left ( only"), None);
    assert_eq!(adjust_title("right ) only"), None);
    assert_eq!(adjust_title(""), None);
    assert_eq!(mapset("a", "  Padded  ").title(), "  padded  ");
}

#[test]
fn brackets_the_wrong_way_round_are_no_brackets() {
    assert_eq!(adjust_title("a ) b ( c"), None);
    assert_eq!(adjust_title("a ) b ( c ft. d"), Some("a ) b ( c".to_owned()));
}

#[test]
fn titles_beyond_ascii_are_cut_by_characters() {
    assert_eq!(adjust_title("夜に駆ける (tv size)"), Some("夜に駆ける".to_owned()));
    assert_eq!(adjust_title("é\u{3000}feat. x"), Some("é".to_owned()));
}
