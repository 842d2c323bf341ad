use mahou::autocompleter::{parse_entry_line, Autocompleter, Entry, EntrySet};

fn set_with(entries: Vec<(&str, u64)>) -> EntrySet {
    EntrySet::from_entries(
        entries
            .into_iter()
            .map(|(s, t)| Entry { string: s.to_owned(), last_used: t })
            .collect(),
    )
}

#[test]
fn adding_replaces_an_equal_entry_and_appends() {
    let mut set = set_with(vec![("one piece", 100), ("naruto", 200)]);
    set.add("one piece".to_owned(), 300);
    assert_eq!(set.to_lines(), "200 naruto\n300 one piece\n");
}

#[test]
fn adding_a_new_entry_keeps_the_others() {
    let mut set = set_with(vec![("one piece", 100)]);
    set.add("bleach".to_owned(), 150);
    assert_eq!(set.to_lines(), "100 one piece\n150 bleach\n");
}

#[test]
fn trim_drops_stale_entries_and_keeps_recent_and_future() {
    let half_year = 60 * 60 * 24 * 365 / 2;
    let now = 10 * half_year;
    let mut set = set_with(vec![
        ("stale", now - half_year - 1),
        ("fresh", now - half_year + 1),
        ("future", now + 5),
    ]);
    set.trim_old(now);
    assert_eq!(
        set.to_lines(),
        format!("{} fresh\n{} future\n", now - half_year + 1, now + 5)
    );
}

#[test]
fn stored_lines_parse_back() {
    let e = parse_entry_line("12345 my favourite show").expect("line should parse");
    assert_eq!(e.last_used, 12345);
    assert_eq!(e.string, "my favourite show");
}

#[test]
fn bad_stored_lines_are_rejected() {
    assert!(parse_entry_line("").is_none());
    assert!(parse_entry_line("no-stamp show").is_none());
    assert!(parse_entry_line(" leading space").is_none());
    assert!(parse_entry_line("nospace").is_none());
    assert!(parse_entry_line("99999999999999999999999 too big").is_none());
}

#[test]
fn serialization_round_trips_through_parsing() {
    let set = set_with(vec![("one piece", 100), ("k-on!", 200)]);
    let text = set.to_lines();
    let parsed: Vec<Entry> = text
        .lines()
        .map(|l| parse_entry_line(l).expect("line should parse"))
        .collect();
    assert_eq!(parsed.len(), 2);
    assert_eq!(parsed[0].string, "one piece");
    assert_eq!(parsed[0].last_used, 100);
    assert_eq!(parsed[1].string, "k-on!");
    assert_eq!(parsed[1].last_used, 200);
}

#[test]
fn completer_takes_the_saved_strings_in_order() {
    let set = set_with(vec![("one piece", 100), ("naruto", 200)]);
    let ac = Autocompleter::from_saved_entries(Some(set));
    assert_eq!(ac.entries, vec!["one piece".to_owned(), "naruto".to_owned()]);
    let empty = Autocompleter::from_saved_entries(None);
    assert!(empty.entries.is_empty());
}

#[test]
fn suggestions_match_case_insensitively() {
    let ac = Autocompleter {
        entries: vec![
            "One Piece".to_owned(),
            "Naruto".to_owned(),
            "one punch man".to_owned(),
        ],
    };
    assert_eq!(
        ac.get_suggestions("ONE"),
        vec!["One Piece".to_owned(), "one punch man".to_owned()]
    );
    assert_eq!(ac.get_suggestions("zzz"), Vec::<String>::new());
}
