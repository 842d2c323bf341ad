//! Catalog search data model: queries, episode selection, result
//! entries, and the interface a catalog backend implements.
use vstd::prelude::*;

use owo_colors::OwoColorize;

pub mod nibl;

verus! {

/// How the catalog collaborator fails: transport trouble, or an error
/// the API itself reported.
#[derive(Debug, Clone, PartialEq, Eq)]
pub enum Error {
    Http(String),
    Api { api: String, message: String },
}

impl Error {
    /// A short human-readable description.
    pub fn describe(&self) -> (r: String)
        ensures
            match *self {
                Error::Http(_) => r@ == "Request failed"@,
                Error::Api { .. } => r@ == "The API returned an error"@,
            },
    {
        match self {
            Error::Http(_) => "Request failed".to_owned(),
            Error::Api { .. } => "The API returned an error".to_owned(),
        }
    }
}

/// What a search yields: the IRC connection parameters to use and the
/// matching catalog entries.
pub struct FindResult {
    pub irc_config: crate::downloader::irc::Config,
    pub entries: Vec<Entry>,
}

/// A catalog backend.  Implementations own their transport; the query
/// and result types are this crate's.
pub trait Finder {
    fn find(&self, query: &Query) -> Result<FindResult, Error>;
}

/// Which episodes of a show the user wants.
#[derive(Debug, Clone, Copy, Default, PartialEq, Hash)]
pub enum EpisodeNumber {
    #[default]
    All,
    Latest,
    Number(i32),
}

/// The episode selection a piece of text denotes: the word `latest`,
/// or a (possibly signed) episode number.
pub open spec fn episode_of_text(s: Seq<char>) -> Option<EpisodeNumber> {
    if s == "latest"@ {
        Some(EpisodeNumber::Latest)
    } else if crate::digits::signed_seq_valid(s) && crate::digits::signed_seq_val(s)
        <= i32::MAX && crate::digits::signed_seq_val(s) >= i32::MIN {
        Some(EpisodeNumber::Number(crate::digits::signed_seq_val(s) as i32))
    } else {
        None
    }
}

impl EpisodeNumber {
    /// Parse an episode selection.
    pub fn parse(s: &str) -> (r: Option<EpisodeNumber>)
        ensures
            r == episode_of_text(s@),
    {
        let owned = s.to_owned();
        let latest = "latest".to_owned();
        if owned == latest {
            Some(EpisodeNumber::Latest)
        } else {
            match crate::digits::parse_i32(s) {
                Some(n) => Some(EpisodeNumber::Number(n)),
                None => None,
            }
        }
    }

    /// The textual form of the selection.
    pub open spec fn text(self) -> Seq<char> {
        match self {
            EpisodeNumber::All => "all"@,
            EpisodeNumber::Latest => "latest"@,
            EpisodeNumber::Number(n) => crate::digits::signed_dec_chars(n as int),
        }
    }

    /// Render the selection as text.
    pub fn render(&self) -> (r: String)
        ensures
            r@ == self.text(),
    {
        match self {
            EpisodeNumber::All => "all".to_owned(),
            EpisodeNumber::Latest => "latest".to_owned(),
            EpisodeNumber::Number(n) => {
                let mut s = String::new();
                crate::digits::push_dec_i32(&mut s, *n);
                proof {
                    assert(s@ =~= crate::digits::signed_dec_chars(*n as int));
                }
                s
            },
        }
    }
}

/// A catalog search: the text to look for, an optional preferred
/// resolution, and the episode selection.
#[derive(Debug, Default, Clone, PartialEq, Hash)]
pub struct Query {
    pub search: String,
    pub resolution: Option<String>,
    pub episode: EpisodeNumber,
}

impl Query {
    pub fn new(search: String, resolution: Option<String>, episode: EpisodeNumber) -> (r: Self)
        ensures
            r.search == search,
            r.resolution == resolution,
            r.episode == episode,
    {
        Query { search, resolution, episode }
    }

    /// Run the query against a backend.
    pub fn find<F: Finder>(&self, finder: &F) -> Result<FindResult, Error> {
        finder.find(self)
    }
}

/// One downloadable catalog entry.
#[derive(Debug, Clone, PartialEq, Hash)]
pub struct Entry {
    pub package_number: i32,
    pub bot_id: i64,
    pub bot_name: String,
    pub name: String,
    pub size: String,
}

/// Relies on owo_colors' `OwoColorize::yellow`: its `Display` writes
/// the yellow foreground escape, the text, and the default-foreground
/// escape.
#[verifier::external_body]
fn paint_yellow(s: &str) -> (r: String)
    ensures
        r@ == "\u{1b}[33m"@ + s@ + "\u{1b}[39m"@,
{
    format!("{}", s.yellow())
}

impl Entry {
    /// The line shown for the entry: name, bot (in yellow), and size.
    pub open spec fn display_text(self) -> Seq<char> {
        self.name@ + " ["@ + "\u{1b}[33m"@ + self.bot_name@ + "\u{1b}[39m"@ + "] ("@ + self.size@
            + ")"@
    }

    /// Render the entry for listing.
    pub fn render(&self) -> (r: String)
        ensures
            r@ == self.display_text(),
    {
        let mut s = String::new();
        s.append(self.name.as_str());
        s.append(" [");
        let painted = paint_yellow(self.bot_name.as_str());
        s.append(painted.as_str());
        s.append("] (");
        s.append(self.size.as_str());
        s.append(")");
        proof {
            assert(s@ =~= self.display_text());
        }
        s
    }
}

} // verus!
