//! The nibl catalog's data and selection logic: its IRC configuration,
//! the shape of its API replies, and how search results become entries.
use vstd::prelude::*;

verus! {

/// One package row of a search reply.
#[derive(Debug)]
pub struct Package {
    pub bot_id: i64,
    pub number: i32,
    pub name: String,
    pub size: String,
    pub last_modified: String,
    pub episode_number: i32,
}

/// One bot row of the bot list.
#[derive(Debug)]
pub struct Bot {
    pub id: i64,
    pub name: String,
}

// ---------------------------------------------------------------------------
// IRC configuration
// ---------------------------------------------------------------------------
/// The throwaway nickname for one session, tagged with a random value.
pub open spec fn nibl_nickname(tag: u32) -> Seq<char> {
    "real-person-"@ + crate::digits::hex_chars(tag as nat)
}

/// The fixed nibl IRC endpoint, with a tagged nickname.
pub fn nibl_config(tag: u32) -> (r: crate::downloader::irc::Config)
    ensures
        r.server@ == "irc.rizon.net:6667"@,
        r.channel@ == "#nibl"@,
        r.nickname@ == nibl_nickname(tag),
{
    let mut nickname = String::new();
    nickname.append("real-person-");
    crate::digits::push_hex_u32(&mut nickname, tag);
    proof {
        assert(nickname@ =~= nibl_nickname(tag));
    }
    crate::downloader::irc::Config {
        server: "irc.rizon.net:6667".to_owned(),
        channel: "#nibl".to_owned(),
        nickname,
    }
}

/// Relies on `rand::random`: draws a fresh 32-bit value from the thread
/// generator; nothing is promised of the value.
#[verifier::external_body]
fn random_u32() -> u32 {
    rand::random::<u32>()
}

/// The fixed nibl IRC endpoint with a freshly drawn nickname tag.
pub fn fresh_nibl_config() -> (r: crate::downloader::irc::Config)
    ensures
        r.server@ == "irc.rizon.net:6667"@,
        r.channel@ == "#nibl"@,
        exists|t: u32| r.nickname@ == nibl_nickname(t),
{
    let tag = random_u32();
    let r = nibl_config(tag);
    proof {
        assert(r.nickname@ == nibl_nickname(tag));
    }
    r
}

// ---------------------------------------------------------------------------
// API reply checks and the search URL
// ---------------------------------------------------------------------------
/// Accept a reply's status field, or surface the API's own message.
pub fn check_status(status: &String, message: String) -> (r: Result<(), crate::finder::Error>)
    ensures
        match r {
            Ok(()) => status@ == "OK"@,
            Err(e) => status@ != "OK"@ && (e matches crate::finder::Error::Api {
                api,
                message: m,
            } && api@ == "nibl"@ && m@ == message@),
        },
{
    let ok = "OK".to_owned();
    if *status == ok {
        Ok(())
    } else {
        Err(crate::finder::Error::Api { api: "nibl".to_owned(), message })
    }
}

/// The bot-list endpoint.
pub fn bots_url() -> (r: String)
    ensures
        r@ == "https://api.nibl.co.uk/nibl"@ + "/bots"@,
{
    let mut s = String::new();
    s.append("https://api.nibl.co.uk/nibl");
    s.append("/bots");
    proof {
        assert(s@ =~= "https://api.nibl.co.uk/nibl"@ + "/bots"@);
    }
    s
}

/// The search endpoint for a query: the search text, `%20` and the
/// resolution when one is set, and the episode number when one is
/// given.
pub open spec fn search_url_text(q: crate::finder::Query) -> Seq<char> {
    let base = "https://api.nibl.co.uk/nibl"@ + "/search?query="@ + q.search@;
    let with_res = match q.resolution {
        Some(res) => base + "%20"@ + res@,
        None => base,
    };
    match q.episode {
        crate::finder::EpisodeNumber::Number(n) => with_res + "&episodeNumber="@
            + crate::digits::signed_dec_chars(n as int),
        _ => with_res,
    }
}

/// Build the search URL for a query.
pub fn search_url(q: &crate::finder::Query) -> (r: String)
    ensures
        r@ == search_url_text(*q),
{
    let mut s = String::new();
    s.append("https://api.nibl.co.uk/nibl");
    s.append("/search?query=");
    s.append(q.search.as_str());
    match &q.resolution {
        Some(res) => {
            s.append("%20");
            s.append(res.as_str());
        },
        None => {},
    }
    match q.episode {
        crate::finder::EpisodeNumber::Number(n) => {
            s.append("&episodeNumber=");
            crate::digits::push_dec_i32(&mut s, n);
        },
        _ => {},
    }
    proof {
        assert(s@ =~= search_url_text(*q));
    }
    s
}

// ---------------------------------------------------------------------------
// Entry selection
// ---------------------------------------------------------------------------
/// Lexicographic order on character sequences.
pub open spec fn lex_le(a: Seq<char>, b: Seq<char>) -> bool
    decreases a.len(),
{
    if a.len() == 0 {
        true
    } else if b.len() == 0 {
        false
    } else if (a[0] as u32) < (b[0] as u32) {
        true
    } else if (a[0] as u32) > (b[0] as u32) {
        false
    } else {
        lex_le(a.subrange(1, a.len() as int), b.subrange(1, b.len() as int))
    }
}

/// Lexicographic comparison of two strings.
fn str_le(a: &str, b: &str) -> (r: bool)
    ensures
        r == lex_le(a@, b@),
{
    let na = a.unicode_len();
    let nb = b.unicode_len();
    let mut i: usize = 0;
    proof {
        assert(a@.skip(0) =~= a@);
        assert(b@.skip(0) =~= b@);
    }
    while i < na && i < nb
        invariant
            i <= na,
            i <= nb,
            na == a@.len(),
            nb == b@.len(),
            lex_le(a@, b@) == lex_le(a@.skip(i as int), b@.skip(i as int)),
        decreases na - i,
    {
        let ca = a.get_char(i) as u32;
        let cb = b.get_char(i) as u32;
        proof {
            let ta = a@.skip(i as int);
            let tb = b@.skip(i as int);
            assert(ta[0] == a@[i as int]);
            assert(tb[0] == b@[i as int]);
            assert(ta.subrange(1, ta.len() as int) =~= a@.skip(i + 1));
            assert(tb.subrange(1, tb.len() as int) =~= b@.skip(i + 1));
        }
        if ca < cb {
            return true;
        }
        if ca > cb {
            return false;
        }
        i += 1;
    }
    proof {
        assert(a@.skip(i as int).len() == na - i);
        assert(b@.skip(i as int).len() == nb - i);
    }
    if i >= na {
        true
    } else {
        false
    }
}

/// The package whose `last_modified` text is lexicographically
/// greatest, later rows winning ties.
pub open spec fn best_package(ps: Seq<Package>) -> Package
    decreases ps.len(),
{
    if ps.len() <= 1 {
        ps[0]
    } else {
        let b = best_package(ps.drop_last());
        if lex_le(b.last_modified@, ps.last().last_modified@) {
            ps.last()
        } else {
            b
        }
    }
}

/// The episode number considered latest: that of the most recently
/// modified package, or 1 when there are none.
pub open spec fn latest_episode(ps: Seq<Package>) -> int {
    if ps.len() == 0 {
        1
    } else {
        best_package(ps).episode_number as int
    }
}

/// The latest episode number of a batch of packages.
pub fn latest_episode_of(ps: &Vec<Package>) -> (r: i32)
    ensures
        r as int == latest_episode(ps@),
{
    if ps.len() == 0 {
        return 1;
    }
    let mut best: usize = 0;
    let mut i: usize = 1;
    while i < ps.len()
        invariant
            1 <= i <= ps@.len(),
            best < i,
            ps@[best as int] == best_package(ps@.take(i as int)),
        decreases ps@.len() - i,
    {
        proof {
            assert(ps@.take(i + 1).drop_last() =~= ps@.take(i as int));
            assert(ps@.take(i + 1).last() == ps@[i as int]);
        }
        if str_le(ps[best].last_modified.as_str(), ps[i].last_modified.as_str()) {
            best = i;
        }
        i += 1;
    }
    proof {
        assert(ps@.take(ps@.len() as int) =~= ps@);
    }
    ps[best].episode_number
}

/// Whether a package matches the episode selection.
pub open spec fn keep_package(p: Package, episode: crate::finder::EpisodeNumber, latest: int) -> bool {
    match episode {
        crate::finder::EpisodeNumber::All => true,
        crate::finder::EpisodeNumber::Latest => p.episode_number as int == latest,
        crate::finder::EpisodeNumber::Number(n) => p.episode_number == n,
    }
}

/// The packages that match, in order.
pub open spec fn kept_packages(
    ps: Seq<Package>,
    episode: crate::finder::EpisodeNumber,
    latest: int,
) -> Seq<Package>
    decreases ps.len(),
{
    if ps.len() == 0 {
        Seq::empty()
    } else {
        let r = kept_packages(ps.drop_last(), episode, latest);
        if keep_package(ps.last(), episode, latest) {
            r.push(ps.last())
        } else {
            r
        }
    }
}

/// The name of the bot with the given id, later rows winning, or the
/// placeholder when no row has it.
pub open spec fn bot_name_of(bots: Seq<Bot>, id: i64) -> Seq<char>
    decreases bots.len(),
{
    if bots.len() == 0 {
        "unknown bot?"@
    } else if bots.last().id == id {
        bots.last().name@
    } else {
        bot_name_of(bots.drop_last(), id)
    }
}

/// Look up a bot's name by id.
pub fn lookup_bot_name(bots: &Vec<Bot>, id: i64) -> (r: String)
    ensures
        r@ == bot_name_of(bots@, id),
{
    let mut found: Option<usize> = None;
    let mut i: usize = 0;
    while i < bots.len()
        invariant
            i <= bots@.len(),
            match found {
                Some(j) => j < i && bot_name_of(bots@.take(i as int), id) == bots@[j as int].name@,
                None => bot_name_of(bots@.take(i as int), id) == "unknown bot?"@,
            },
        decreases bots@.len() - i,
    {
        proof {
            assert(bots@.take(i + 1).drop_last() =~= bots@.take(i as int));
            assert(bots@.take(i + 1).last() == bots@[i as int]);
        }
        if bots[i].id == id {
            found = Some(i);
        }
        i += 1;
    }
    proof {
        assert(bots@.take(bots@.len() as int) =~= bots@);
    }
    match found {
        Some(j) => bots[j].name.clone(),
        None => "unknown bot?".to_owned(),
    }
}

/// An entry faithfully carries a package's data, with the bot name
/// resolved.
pub open spec fn entry_matches(e: crate::finder::Entry, p: Package, bots: Seq<Bot>) -> bool {
    &&& e.package_number == p.number
    &&& e.bot_id == p.bot_id
    &&& e.bot_name@ == bot_name_of(bots, p.bot_id)
    &&& e.name@ == p.name@
    &&& e.size@ == p.size@
}

/// Turn the matching packages of a search reply into catalog entries:
/// filter by the episode selection (`Latest` resolved against the most
/// recently modified package) and resolve each bot id to its name.
pub fn select_entries(
    packages: Vec<Package>,
    bots: &Vec<Bot>,
    episode: crate::finder::EpisodeNumber,
) -> (r: Vec<crate::finder::Entry>)
    ensures
        ({
            let kept = kept_packages(packages@, episode, latest_episode(packages@));
            &&& r@.len() == kept.len()
            &&& forall|j: int| 0 <= j < kept.len() ==> entry_matches(r@[j], kept[j], bots@)
        }),
{
    let latest = latest_episode_of(&packages);
    let ghost lat = latest_episode(packages@);
    let mut out: Vec<crate::finder::Entry> = Vec::new();
    let mut i: usize = 0;
    while i < packages.len()
        invariant
            i <= packages@.len(),
            latest as int == lat,
            out@.len() == kept_packages(packages@.take(i as int), episode, lat).len(),
            forall|j: int|
                0 <= j < out@.len() ==> entry_matches(
                    out@[j],
                    kept_packages(packages@.take(i as int), episode, lat)[j],
                    bots@,
                ),
        decreases packages@.len() - i,
    {
        proof {
            assert(packages@.take(i + 1).drop_last() =~= packages@.take(i as int));
            assert(packages@.take(i + 1).last() == packages@[i as int]);
        }
        let p = &packages[i];
        let matches_episode: bool = match episode {
            crate::finder::EpisodeNumber::All => true,
            crate::finder::EpisodeNumber::Latest => p.episode_number == latest,
            crate::finder::EpisodeNumber::Number(n) => p.episode_number == n,
        };
        if matches_episode {
            let entry = crate::finder::Entry {
                package_number: p.number,
                bot_id: p.bot_id,
                bot_name: lookup_bot_name(bots, p.bot_id),
                name: p.name.clone(),
                size: p.size.clone(),
            };
            out.push(entry);
        }
        i += 1;
    }
    proof {
        assert(packages@.take(packages@.len() as int) =~= packages@);
    }
    out
}

} // verus!
