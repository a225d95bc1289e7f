use vstd::prelude::*;
use crate::resolve::Candidate;
use crate::text::{
    decimal, decimal_text, dots_to_spaces, file_stem, file_stem_of, parse_u16, parse_u16_of,
    replace_dots, trim, trimmed,
};

verus! {

/// Finds a title followed by a four-digit year in a file stem: the year in
/// parentheses, in brackets, between full stops, or between spaces. The title
/// is the (shortest) text before it.
pub const TITLE_YEAR_RE: &'static str = r"(?P<t>.*?)(?:\((\d{4}).*\)|\[(\d{4}).*\]|\.(\d{4}).*\.| (\d{4}) )";

/// The capture groups of the leftmost match of `pattern` in `text`, in the
/// order of their opening parentheses, group 0 being the whole match; `Some(None)`
/// where nothing matches, `None` where the pattern is not a valid regex.
pub uninterp spec fn regex_groups(pattern: Seq<char>, text: Seq<char>) -> Option<Option<Seq<Option<Seq<char>>>>>;

/// The optional strings as optional sequences of characters.
pub open spec fn groups_view(g: Seq<Option<String>>) -> Seq<Option<Seq<char>>> {
    g.map_values(|o: Option<String>| match o {
        Some(s) => Some(s@),
        None => None,
    })
}

/// Relies on regex::Regex::new and Regex::captures, whose groups are listed by
/// Captures::iter.
#[verifier::external_body]
fn regex_captures(pattern: &str, text: &str) -> (r: Option<Option<Vec<Option<String>>>>)
    ensures
        r is None <==> regex_groups(pattern@, text@) is None,
        r matches Some(None) ==> regex_groups(pattern@, text@) == Some(None::<Seq<Option<Seq<char>>>>),
        r matches Some(Some(g)) ==> regex_groups(pattern@, text@) == Some(Some(groups_view(g@))),
{
    match regex::Regex::new(pattern) {
        Ok(re) => Some(
            re.captures(text).map(|c| c.iter().map(|g| g.map(|m| m.as_str().to_string())).collect()),
        ),
        Err(_) => None,
    }
}

/// What can be told of a film from its file name.
pub struct Metadata {
    pub title: String,
    pub year: Option<u16>,
}

/// The text that searches for a film: its title, then its year in
/// parentheses where it is known.
pub open spec fn query_text(title: Seq<char>, year: Option<u16>) -> Seq<char> {
    match year {
        Some(y) => title + " ("@ + decimal(y as nat) + ")"@,
        None => title,
    }
}

/// The first group from position `i` on that holds a `u16` in decimal.
pub open spec fn year_from(g: Seq<Option<Seq<char>>>, i: nat) -> Option<u16>
    decreases g.len() - i,
{
    if i >= g.len() {
        None
    } else {
        match g[i as int] {
            Some(t) => match parse_u16_of(t) {
                Some(y) => Some(y),
                None => year_from(g, i + 1),
            },
            None => year_from(g, i + 1),
        }
    }
}

/// Title and year by `TITLE_YEAR_RE`: the title group with full stops made
/// spaces and white space trimmed, and the first year group that holds a
/// number; `None` where the pattern does not match.
pub open spec fn guess_with_regex_of(s: Seq<char>) -> Option<(Seq<char>, Option<u16>)> {
    match regex_groups(TITLE_YEAR_RE@, s) {
        Some(Some(g)) => metadata_of_groups(g),
        _ => None,
    }
}

/// Title and year from the capture groups of `TITLE_YEAR_RE`: group 1 with
/// full stops made spaces and white space trimmed, and the first later group
/// that holds a number; `None` where there is no group 1.
pub open spec fn metadata_of_groups(g: Seq<Option<Seq<char>>>) -> Option<(Seq<char>, Option<u16>)> {
    if g.len() > 1 && g[1] is Some {
        Some((trimmed(dots_to_spaces(g[1]->Some_0)), year_from(g, 2)))
    } else {
        None
    }
}

/// Title and year of the file at `path`: guessed from the file stem by
/// `TITLE_YEAR_RE`, else the whole stem with no year; `None` where the path
/// has no file stem.
pub open spec fn guess_of(path: Seq<char>) -> Option<(Seq<char>, Option<u16>)> {
    match file_stem_of(path) {
        None => None,
        Some(stem) => match guess_with_regex_of(stem) {
            Some(m) => Some(m),
            None => Some((stem, None)),
        },
    }
}

/// The metadata as a pair of title and year.
pub open spec fn metadata_view(m: Option<Metadata>) -> Option<(Seq<char>, Option<u16>)> {
    match m {
        Some(m) => Some((m.title@, m.year)),
        None => None,
    }
}

impl Metadata {
    /// The search text: the title, then ` (year)` where the year is known.
    pub fn to_string(&self) -> (r: String)
        ensures
            r@ == query_text(self.title@, self.year),
    {
        let mut r = self.title.clone();
        match self.year {
            Some(y) => {
                r.append(" (");
                let digits = decimal_text(y);
                r.append(digits.as_str());
                r.append(")");
            },
            None => {},
        }
        r
    }
}

/// Title and year from the capture groups of a match of `TITLE_YEAR_RE`.
pub fn metadata_from_groups(groups: &Vec<Option<String>>) -> (r: Option<Metadata>)
    ensures
        metadata_view(r) == metadata_of_groups(groups_view(groups@)),
{
    let ghost g = groups_view(groups@);
    if groups.len() < 2 {
        return None;
    }
    match &groups[1] {
        None => None,
        Some(t) => {
            assert(g[1] == Some(t@));
            let spaced = replace_dots(t.as_str());
            let title = trim(spaced.as_str());
            let mut year: Option<u16> = None;
            let mut i: usize = 2;
            while i < groups.len()
                invariant_except_break
                    year is None,
                    year_from(g, 2) == year_from(g, i as nat),
                invariant
                    2 <= i <= groups@.len(),
                    g == groups_view(groups@),
                ensures
                    year == year_from(g, 2),
                decreases groups@.len() - i,
            {
                match &groups[i] {
                    Some(t) => {
                        assert(g[i as int] == Some(t@));
                        match parse_u16(t.as_str()) {
                            Some(y) => {
                                year = Some(y);
                                break ;
                            },
                            None => {},
                        }
                    },
                    None => {},
                }
                i = i + 1;
            }
            Some(Metadata { title, year })
        },
    }
}

/// Title and year from a file stem by `TITLE_YEAR_RE`.
pub fn guess_metadata_with_regex(s: &str) -> (r: Option<Metadata>)
    ensures
        metadata_view(r) == guess_with_regex_of(s@),
{
    match regex_captures(TITLE_YEAR_RE, s) {
        Some(Some(groups)) => metadata_from_groups(&groups),
        _ => None,
    }
}

/// Title and year of the film in the file at `path`, from its file stem.
pub fn guess_metadata(path: &str) -> (r: Option<Metadata>)
    ensures
        metadata_view(r) == guess_of(path@),
{
    match file_stem(path) {
        None => None,
        Some(stem) => match guess_metadata_with_regex(stem.as_str()) {
            Some(m) => Some(m),
            None => Some(Metadata { title: stem, year: None }),
        },
    }
}

/// The candidate for a film file: keyed by its file name, searched for by the
/// title and year guessed from the name's stem; `None` where it has no stem.
pub fn candidate_for(file_name: &str) -> (r: Option<Candidate>)
    ensures
        r is None <==> guess_of(file_name@) is None,
        r matches Some(c) ==> c.name@ == file_name@ && c.query@ == query_text(
            guess_of(file_name@)->Some_0.0,
            guess_of(file_name@)->Some_0.1,
        ),
{
    match guess_metadata(file_name) {
        None => None,
        Some(m) => Some(Candidate { name: String::from_str(file_name), query: m.to_string() }),
    }
}

} // verus!
