use sonik::terms::{SearchQuery, Term};

fn text_of(t: &Term) -> &str {
    match t {
        Term::Title(s) | Term::Album(s) | Term::Artist(s) => s.as_str(),
    }
}

#[test]
fn scopes_parse_to_their_variants() {
    assert!(matches!(Term::from_search_query("title:foo"), Some(Term::Title(ref s)) if s == "foo"));
    assert!(matches!(Term::from_search_query("album:foo"), Some(Term::Album(ref s)) if s == "foo"));
    assert!(matches!(Term::from_search_query("artist:foo"), Some(Term::Artist(ref s)) if s == "foo"));
}

#[test]
fn bad_inputs_parse_to_nothing() {
    assert!(SearchQuery::new("nope:foo").is_none());
    assert!(SearchQuery::new("foo").is_none());
    assert!(SearchQuery::new("").is_none());
    assert!(SearchQuery::new("title:a:b").is_none());
    assert!(SearchQuery::new("Title:foo").is_none());
}

#[test]
fn text_is_kept_verbatim() {
    let q = SearchQuery::new("artist: The Beatles ").unwrap();
    assert!(matches!(q.terms, Term::Artist(_)));
    assert_eq!(text_of(&q.terms), " The Beatles ");
    let q = SearchQuery::new("title:").unwrap();
    assert_eq!(text_of(&q.terms), "");
    let q = SearchQuery::new("album:Café Noir").unwrap();
    assert_eq!(text_of(&q.terms), "Café Noir");
}
