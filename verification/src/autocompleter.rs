//! The search-history autocompleter's data model: entries stamped with
//! their last use, matching against typed input, and the on-disk line
//! format.
use vstd::prelude::*;

verus! {

/// Entries older than half a year are dropped when trimming.
pub const HALF_YEAR_SECS: u64 = 60 * 60 * 24 * 365 / 2;

/// Completion candidates for the search prompt.
#[derive(Debug, Default, Clone)]
pub struct Autocompleter {
    pub entries: Vec<String>,
}

/// One remembered search, stamped with the seconds-since-epoch of its
/// last use.
#[derive(Debug)]
pub struct Entry {
    pub string: String,
    pub last_used: u64,
}

/// The set of remembered searches, and whether it still matches what
/// is on disk.
#[derive(Debug)]
pub struct EntrySet {
    entries: Vec<Entry>,
    saved: bool,
}

impl View for EntrySet {
    type V = Seq<Entry>;

    closed spec fn view(&self) -> Seq<Entry> {
        self.entries@
    }
}

impl Default for EntrySet {
    fn default() -> (r: Self)
        ensures
            r@.len() == 0,
            r.is_saved(),
    {
        EntrySet { entries: Vec::new(), saved: true }
    }
}

/// The strings of a sequence of entries, in order.
pub open spec fn entry_strings(es: Seq<Entry>) -> Seq<Seq<char>> {
    Seq::new(es.len(), |i: int| es[i].string@)
}

impl Autocompleter {
    /// Build the candidate list from the saved entries, or empty when
    /// nothing could be loaded.
    pub fn from_saved_entries(saved: Option<EntrySet>) -> (r: Self)
        ensures
            match saved {
                Some(set) => r.entries.deep_view() == entry_strings(set@),
                None => r.entries@.len() == 0,
            },
    {
        match saved {
            Some(set) => {
                let EntrySet { entries, saved: _ } = set;
                let mut out: Vec<String> = Vec::new();
                let mut i: usize = 0;
                while i < entries.len()
                    invariant
                        i <= entries@.len(),
                        out.deep_view() =~= entry_strings(entries@).take(i as int),
                    decreases entries@.len() - i,
                {
                    let ghost prev = out.deep_view();
                    out.push(entries[i].string.clone());
                    proof {
                        assert(out.deep_view() =~= prev.push(entries@[i as int].string@));
                        assert(entry_strings(entries@).take(i + 1) =~= entry_strings(
                            entries@,
                        ).take(i as int).push(entries@[i as int].string@));
                    }
                    i += 1;
                }
                proof {
                    assert(entry_strings(entries@).take(entries@.len() as int) =~= entry_strings(
                        entries@,
                    ));
                }
                Autocompleter { entries: out }
            },
            None => Autocompleter { entries: Vec::new() },
        }
    }

    /// The candidates whose case-folded text contains the case-folded
    /// input, in order.
    pub fn get_suggestions(&self, input: &str) -> (r: Vec<String>)
        ensures
            r.deep_view() == matching_entries(self.entries@, crate::text::lower_of(input@)),
    {
        let input_lower = crate::text::lowercase(input);
        let mut out: Vec<String> = Vec::new();
        let mut i: usize = 0;
        while i < self.entries.len()
            invariant
                i <= self.entries@.len(),
                out.deep_view() =~= matching_entries(
                    self.entries@.take(i as int),
                    input_lower@,
                ),
                input_lower@ == crate::text::lower_of(input@),
            decreases self.entries@.len() - i,
        {
            proof {
                assert(self.entries@.take(i + 1).drop_last() =~= self.entries@.take(i as int));
                assert(self.entries@.take(i + 1).last() == self.entries@[i as int]);
            }
            let entry_lower = crate::text::lowercase(self.entries[i].as_str());
            if crate::text::contains_substr(entry_lower.as_str(), input_lower.as_str()) {
                let ghost prev = out.deep_view();
                out.push(self.entries[i].clone());
                proof {
                    assert(out.deep_view() =~= prev.push(self.entries@[i as int]@));
                }
            }
            i += 1;
        }
        proof {
            assert(self.entries@.take(self.entries@.len() as int) =~= self.entries@);
        }
        out
    }
}

/// The entries whose case-folded text contains the (case-folded)
/// input, in order.
pub open spec fn matching_entries(es: Seq<String>, input_lower: Seq<char>) -> Seq<Seq<char>>
    decreases es.len(),
{
    if es.len() == 0 {
        Seq::empty()
    } else {
        let r = matching_entries(es.drop_last(), input_lower);
        if crate::text::contains_sub(crate::text::lower_of(es.last()@), input_lower) {
            r.push(es.last()@)
        } else {
            r
        }
    }
}

/// The entries that keep their place when `name` is re-added: those
/// with a different string, in order.
pub open spec fn retained_entries(es: Seq<Entry>, name: Seq<char>) -> Seq<Entry>
    decreases es.len(),
{
    if es.len() == 0 {
        Seq::empty()
    } else {
        let r = retained_entries(es.drop_last(), name);
        if es.last().string@ != name {
            r.push(es.last())
        } else {
            r
        }
    }
}

/// An entry young enough to survive trimming at time `now`.
pub open spec fn entry_fresh(e: Entry, now: u64) -> bool {
    e.last_used + HALF_YEAR_SECS > now
}

/// The entries that survive trimming, in order.
pub open spec fn fresh_entries(es: Seq<Entry>, now: u64) -> Seq<Entry>
    decreases es.len(),
{
    if es.len() == 0 {
        Seq::empty()
    } else {
        let r = fresh_entries(es.drop_last(), now);
        if entry_fresh(es.last(), now) {
            r.push(es.last())
        } else {
            r
        }
    }
}

/// The line an entry is stored as: the stamp, one space, the text,
/// and a newline.
pub open spec fn entry_line_text(e: Entry) -> Seq<char> {
    crate::digits::dec_chars(e.last_used as nat) + seq![' '] + e.string@ + seq!['\n']
}

/// The whole set, one line per entry, in order.
pub open spec fn lines_text(es: Seq<Entry>) -> Seq<char>
    decreases es.len(),
{
    if es.len() == 0 {
        Seq::empty()
    } else {
        lines_text(es.drop_last()) + entry_line_text(es.last())
    }
}

impl EntrySet {
    /// The in-memory set still matches the on-disk one.
    pub closed spec fn is_saved(&self) -> bool {
        self.saved
    }

    /// Remember a search made at time `now` (seconds since the epoch):
    /// any earlier entry with the same text is dropped, and the new
    /// entry goes to the end.
    pub fn add(&mut self, new_entry: String, now: u64)
        ensures
            final(self)@.len() == retained_entries(old(self)@, new_entry@).len() + 1,
            final(self)@.drop_last() == retained_entries(old(self)@, new_entry@),
            final(self)@.last().string == new_entry,
            final(self)@.last().last_used == now,
            !final(self).is_saved(),
    {
        self.saved = false;
        let mut out: Vec<Entry> = Vec::new();
        let mut i: usize = 0;
        while i < self.entries.len()
            invariant
                i <= self.entries@.len(),
                out@ =~= retained_entries(self.entries@.take(i as int), new_entry@),
            decreases self.entries@.len() - i,
        {
            proof {
                assert(self.entries@.take(i + 1).drop_last() =~= self.entries@.take(i as int));
                assert(self.entries@.take(i + 1).last() == self.entries@[i as int]);
            }
            let e = &self.entries[i];
            let keep = !(e.string == new_entry);
            if keep {
                out.push(
                    Entry { string: e.string.clone(), last_used: e.last_used },
                );
            }
            i += 1;
        }
        proof {
            assert(self.entries@.take(self.entries@.len() as int) =~= self.entries@);
        }
        out.push(Entry { string: new_entry, last_used: now });
        proof {
            assert(out@.drop_last() =~= retained_entries(self.entries@, out@.last().string@));
        }
        self.entries = out;
    }

    /// Drop entries not used for half a year, measured against `now`
    /// (seconds since the epoch); entries stamped in the future are
    /// kept.
    pub fn trim_old(&mut self, now: u64)
        ensures
            final(self)@ == fresh_entries(old(self)@, now),
            !final(self).is_saved(),
    {
        self.saved = false;
        let mut out: Vec<Entry> = Vec::new();
        let mut i: usize = 0;
        while i < self.entries.len()
            invariant
                i <= self.entries@.len(),
                out@ =~= fresh_entries(self.entries@.take(i as int), now),
            decreases self.entries@.len() - i,
        {
            proof {
                assert(self.entries@.take(i + 1).drop_last() =~= self.entries@.take(i as int));
                assert(self.entries@.take(i + 1).last() == self.entries@[i as int]);
            }
            let e = &self.entries[i];
            let keep = if e.last_used <= u64::MAX - HALF_YEAR_SECS {
                e.last_used + HALF_YEAR_SECS > now
            } else {
                true
            };
            if keep {
                out.push(
                    Entry { string: e.string.clone(), last_used: e.last_used },
                );
            }
            i += 1;
        }
        proof {
            assert(self.entries@.take(self.entries@.len() as int) =~= self.entries@);
        }
        self.entries = out;
    }

    /// Serialize the set to its on-disk text, one line per entry.
    pub fn to_lines(&self) -> (r: String)
        ensures
            r@ == lines_text(self@),
    {
        let mut s = String::new();
        let mut i: usize = 0;
        while i < self.entries.len()
            invariant
                i <= self.entries@.len(),
                s@ =~= lines_text(self.entries@.take(i as int)),
            decreases self.entries@.len() - i,
        {
            proof {
                assert(self.entries@.take(i + 1).drop_last() =~= self.entries@.take(i as int));
                assert(self.entries@.take(i + 1).last() == self.entries@[i as int]);
            }
            let e = &self.entries[i];
            crate::digits::push_dec_u64(&mut s, e.last_used);
            crate::text::push_char(&mut s, ' ');
            s.append(e.string.as_str());
            crate::text::push_char(&mut s, '\n');
            proof {
                assert(s@ =~= lines_text(self.entries@.take(i + 1)));
            }
            i += 1;
        }
        proof {
            assert(self.entries@.take(self.entries@.len() as int) =~= self.entries@);
        }
        s
    }

    /// Rebuild a set from entries loaded from disk; the set is marked
    /// saved.
    pub fn from_entries(entries: Vec<Entry>) -> (r: Self)
        ensures
            r@ == entries@,
            r.is_saved(),
    {
        EntrySet { entries, saved: true }
    }
}

/// Read one stored line back into an entry: the decimal stamp, one
/// space, then the text (which may itself contain spaces).
pub fn parse_entry_line(line: &str) -> (r: Option<Entry>)
    ensures
        match r {
            Some(e) => {
                let sp = crate::text::find_ch(line@, ' ');
                &&& sp >= 1
                &&& crate::digits::dec_seq_valid(line@.take(sp))
                &&& crate::digits::dec_seq_val(line@.take(sp)) <= u64::MAX
                &&& e.last_used as nat == crate::digits::dec_seq_val(line@.take(sp))
                &&& e.string@ == line@.skip(sp + 1)
            },
            None => {
                let sp = crate::text::find_ch(line@, ' ');
                sp < 1 || !crate::digits::dec_seq_valid(line@.take(sp))
                    || crate::digits::dec_seq_val(line@.take(sp)) > u64::MAX
            },
        },
{
    let n = line.unicode_len();
    let sp = match crate::text::find_char(line, ' ') {
        Some(sp) => sp,
        None => {
            return None;
        },
    };
    if sp == 0 {
        return None;
    }
    proof {
        crate::text::lemma_find_ch(line@, ' ');
    }
    let stamp_s = line.substring_char(0, sp);
    proof {
        assert(stamp_s@ =~= line@.take(sp as int));
    }
    let stamp = match crate::digits::parse_u64(stamp_s) {
        Some(v) => v,
        None => {
            return None;
        },
    };
    let text = line.substring_char(sp + 1, n).to_owned();
    proof {
        assert(text@ =~= line@.skip(sp + 1));
    }
    Some(Entry { string: text, last_used: stamp })
}

} // verus!
