//! The search query grammar: `<scope>:<text>`, with scope `title`, `album`
//! or `artist`.
use vstd::prelude::*;
use vstd::string::StrSliceExecFns;

use crate::text::segment_is;

verus! {

/// One scoped search term.
pub enum Term {
    Title(String),
    Album(String),
    Artist(String),
}

/// Which index a term searches.
#[derive(PartialEq, Eq, Structural, Clone, Copy, Debug)]
pub enum Scope {
    Title,
    Album,
    Artist,
}

/// A parsed search input.
pub struct SearchQuery {
    pub terms: Term,
}

impl View for Term {
    type V = (Scope, Seq<char>);

    open spec fn view(&self) -> (Scope, Seq<char>) {
        match self {
            Term::Title(s) => (Scope::Title, s@),
            Term::Album(s) => (Scope::Album, s@),
            Term::Artist(s) => (Scope::Artist, s@),
        }
    }
}

/// `i` is the position of the one and only `:` of `s`.
pub open spec fn sole_colon_at(s: Seq<char>, i: int) -> bool {
    &&& 0 <= i < s.len()
    &&& s[i] == ':'
    &&& forall|j: int| 0 <= j < s.len() && j != i ==> s[j] != ':'
}

/// The scope that a prefix names, if any.
pub open spec fn scope_of(p: Seq<char>) -> Option<Scope> {
    if p == seq!['t', 'i', 't', 'l', 'e'] {
        Some(Scope::Title)
    } else if p == seq!['a', 'l', 'b', 'u', 'm'] {
        Some(Scope::Album)
    } else if p == seq!['a', 'r', 't', 'i', 's', 't'] {
        Some(Scope::Artist)
    } else {
        None
    }
}

/// What an input means: with exactly one `:`, a known scope before it and
/// the text after it, verbatim; nothing otherwise.
pub open spec fn parse_spec(s: Seq<char>) -> Option<(Scope, Seq<char>)> {
    if exists|i: int| sole_colon_at(s, i) {
        let i = choose|i: int| sole_colon_at(s, i);
        match scope_of(s.subrange(0, i)) {
            Some(sc) => Some((sc, s.subrange(i + 1, s.len() as int))),
            None => None,
        }
    } else {
        None
    }
}

pub open spec fn term_option_view(o: Option<Term>) -> Option<(Scope, Seq<char>)> {
    match o {
        Some(t) => Some(t@),
        None => None,
    }
}

impl Term {
    /// Parses `<scope>:<text>`: the input must hold exactly one `:`, the
    /// scope must be `title`, `album` or `artist`, and the text after the
    /// `:` is taken as it stands.
    pub fn from_search_query(query: &str) -> (r: Option<Term>)
        ensures
            term_option_view(r) == parse_spec(query@),
    {
        let n = query.unicode_len();
        let mut colons: usize = 0;
        let mut at: usize = 0;
        let mut second: usize = 0;
        let mut k: usize = 0;
        while k < n
            invariant
                k <= n,
                n == query@.len(),
                colons <= k,
                colons == 0 ==> forall|x: int| 0 <= x < k ==> query@[x] != ':',
                colons >= 1 ==> at < k && query@[at as int] == ':',
                colons == 1 ==> forall|x: int| 0 <= x < k && x != at ==> query@[x] != ':',
                colons >= 2 ==> second < k && second != at && query@[second as int] == ':',
            decreases n - k,
        {
            if query.get_char(k) == ':' {
                if colons == 0 {
                    at = k;
                } else if colons == 1 {
                    second = k;
                }
                if colons < 2 {
                    colons = colons + 1;
                }
            }
            k = k + 1;
        }
        if colons != 1 {
            proof {
                assert forall|i: int| !sole_colon_at(query@, i) by {
                    if sole_colon_at(query@, i) && colons >= 2 {
                        assert(i == at);
                        assert(i == second);
                    }
                }
            }
            return None;
        }
        proof {
            assert(sole_colon_at(query@, at as int));
            let c = choose|i: int| sole_colon_at(query@, i);
            assert(c == at);
            reveal_strlit("title");
            reveal_strlit("album");
            reveal_strlit("artist");
            assert("title"@ =~= seq!['t', 'i', 't', 'l', 'e']);
            assert("album"@ =~= seq!['a', 'l', 'b', 'u', 'm']);
            assert("artist"@ =~= seq!['a', 'r', 't', 'i', 's', 't']);
        }
        let text = query.substring_char(at + 1, n).to_owned();
        if segment_is(query, 0, at, "title") {
            Some(Term::Title(text))
        } else if segment_is(query, 0, at, "album") {
            Some(Term::Album(text))
        } else if segment_is(query, 0, at, "artist") {
            Some(Term::Artist(text))
        } else {
            None
        }
    }
}

impl SearchQuery {
    /// Turns the user's input into a query, as `Term::from_search_query`
    /// parses it.
    pub fn new(input: &str) -> (r: Option<SearchQuery>)
        ensures
            term_option_view(
                match r {
                    Some(q) => Some(q.terms),
                    None => None,
                },
            ) == parse_spec(input@),
    {
        match Term::from_search_query(input) {
            Some(terms) => Some(SearchQuery { terms }),
            None => None,
        }
    }
}

} // verus!
