use mahou::finder::nibl::{
    check_status, fresh_nibl_config, lookup_bot_name, nibl_config, search_url, select_entries,
    Bot, Package,
};
use mahou::finder::{EpisodeNumber, Error, Query};

fn pkg(number: i32, episode: i32, modified: &str, bot: i64) -> Package {
    Package {
        bot_id: bot,
        number,
        name: format!("Show {:02}", episode),
        size: "1.2G".to_owned(),
        last_modified: modified.to_owned(),
        episode_number: episode,
    }
}

#[test]
fn episode_selection_parses() {
    assert_eq!(EpisodeNumber::parse("latest"), Some(EpisodeNumber::Latest));
    assert_eq!(EpisodeNumber::parse("12"), Some(EpisodeNumber::Number(12)));
    assert_eq!(EpisodeNumber::parse("-3"), Some(EpisodeNumber::Number(-3)));
    assert_eq!(EpisodeNumber::parse("twelve"), None);
    assert_eq!(EpisodeNumber::parse(""), None);
}

#[test]
fn episode_selection_renders() {
    assert_eq!(EpisodeNumber::All.render(), "all");
    assert_eq!(EpisodeNumber::Latest.render(), "latest");
    assert_eq!(EpisodeNumber::Number(7).render(), "7");
    assert_eq!(EpisodeNumber::Number(-7).render(), "-7");
}

#[test]
fn query_holds_its_fields() {
    let q = Query::new(
        "cool show".to_owned(),
        Some("1080".to_owned()),
        EpisodeNumber::Latest,
    );
    assert_eq!(q.search, "cool show");
    assert_eq!(q.resolution, Some("1080".to_owned()));
    assert_eq!(q.episode, EpisodeNumber::Latest);
}

#[test]
fn search_url_carries_resolution_and_episode() {
    let q = Query::new(
        "naruto".to_owned(),
        Some("720".to_owned()),
        EpisodeNumber::Number(3),
    );
    assert_eq!(
        search_url(&q),
        "https://api.nibl.co.uk/nibl/search?query=naruto%20720&episodeNumber=3"
    );
    let plain = Query::new("naruto".to_owned(), None, EpisodeNumber::All);
    assert_eq!(
        search_url(&plain),
        "https://api.nibl.co.uk/nibl/search?query=naruto"
    );
}

#[test]
fn status_other_than_ok_is_an_api_error() {
    assert!(check_status(&"OK".to_owned(), "fine".to_owned()).is_ok());
    match check_status(&"ERROR".to_owned(), "boom".to_owned()) {
        Err(Error::Api { api, message }) => {
            assert_eq!(api, "nibl");
            assert_eq!(message, "boom");
        }
        other => panic!("expected an API error, got ok={}", other.is_ok()),
    }
}

#[test]
fn nibl_config_is_fixed_with_tagged_nickname() {
    let c = nibl_config(0xc0de);
    assert_eq!(c.server, "irc.rizon.net:6667");
    assert_eq!(c.channel, "#nibl");
    assert_eq!(c.nickname, "real-person-c0de");
    let fresh = fresh_nibl_config();
    assert_eq!(fresh.server, "irc.rizon.net:6667");
    assert!(fresh.nickname.starts_with("real-person-"));
}

#[test]
fn latest_selection_follows_last_modified() {
    let packages = vec![
        pkg(1, 1, "2023-01-01 10:00:00", 7),
        pkg(2, 2, "2023-03-01 10:00:00", 7),
        pkg(3, 3, "2023-02-01 10:00:00", 7),
    ];
    let bots = vec![Bot { id: 7, name: "CoolBot".to_owned() }];
    let entries = select_entries(packages, &bots, EpisodeNumber::Latest);
    assert_eq!(entries.len(), 1);
    assert_eq!(entries[0].package_number, 2);
    assert_eq!(entries[0].bot_name, "CoolBot");
}

#[test]
fn all_and_numbered_selection() {
    let packages = vec![
        pkg(1, 1, "a", 7),
        pkg(2, 2, "b", 8),
        pkg(3, 2, "c", 9),
    ];
    let bots = vec![
        Bot { id: 7, name: "Seven".to_owned() },
        Bot { id: 8, name: "Eight".to_owned() },
    ];
    let all = select_entries(
        vec![pkg(1, 1, "a", 7), pkg(2, 2, "b", 8), pkg(3, 2, "c", 9)],
        &bots,
        EpisodeNumber::All,
    );
    assert_eq!(all.len(), 3);
    let two = select_entries(packages, &bots, EpisodeNumber::Number(2));
    assert_eq!(two.len(), 2);
    assert_eq!(two[0].package_number, 2);
    assert_eq!(two[1].package_number, 3);
    assert_eq!(two[1].bot_name, "unknown bot?");
}

#[test]
fn duplicate_bot_ids_resolve_to_the_later_row() {
    let bots = vec![
        Bot { id: 7, name: "First".to_owned() },
        Bot { id: 7, name: "Second".to_owned() },
    ];
    assert_eq!(lookup_bot_name(&bots, 7), "Second");
    assert_eq!(lookup_bot_name(&bots, 8), "unknown bot?");
}

#[test]
fn entry_render_paints_the_bot_name_yellow() {
    let e = mahou::finder::Entry {
        package_number: 1,
        bot_id: 7,
        bot_name: "CoolBot".to_owned(),
        name: "Show 01".to_owned(),
        size: "1.2G".to_owned(),
    };
    assert_eq!(
        e.render(),
        "Show 01 [\u{1b}[33mCoolBot\u{1b}[39m] (1.2G)"
    );
}

#[test]
fn filter_matches_words_case_insensitively() {
    assert!(mahou::filter("cool show", "My Cool Show 01"));
    assert!(mahou::filter("SHOW", "my cool show"));
    assert!(mahou::filter("", "anything"));
    assert!(!mahou::filter("cool show", "My Cool Thing"));
}

#[test]
fn download_builds_the_single_package_request() {
    let entry = mahou::finder::Entry {
        package_number: 42,
        bot_id: 7,
        bot_name: "CoolBot".to_owned(),
        name: "Show".to_owned(),
        size: "1G".to_owned(),
    };
    let config = nibl_config(1);
    let req = mahou::downloader::download(&entry, config, "/tmp/downloads".to_owned());
    assert_eq!(req.bot, "CoolBot");
    assert_eq!(req.packages, vec!["42".to_owned()]);
    assert_eq!(req.directory, "/tmp/downloads");
    assert_eq!(req.config.channel, "#nibl");
}
