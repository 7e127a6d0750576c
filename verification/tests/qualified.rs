use bridge_gen::qualified::{PathFault, QualifiedName, Tokens};
use syn::parse::{ParseStream, Parser};

fn segments(name: &QualifiedName) -> Vec<String> {
    let names = name.names();
    let texts: Vec<String> = name.segments.iter().map(|segment| segment.to_string()).collect();
    assert_eq!(names, texts);
    names
}

fn unquoted(source: &str) -> Result<Vec<String>, String> {
    let parser = |input: ParseStream| {
        QualifiedName::parse_unquoted(&mut Tokens { input }).map_err(|malformed| malformed.error)
    };
    match parser.parse_str(source) {
        Ok(name) => Ok(segments(&name)),
        Err(error) => Err(error.to_string()),
    }
}

fn quoted_or_unquoted(source: &str) -> Result<Vec<String>, String> {
    let parser = |input: ParseStream| {
        QualifiedName::parse_quoted_or_unquoted(&mut Tokens { input }).map_err(|malformed| malformed.error)
    };
    match parser.parse_str(source) {
        Ok(name) => Ok(segments(&name)),
        Err(error) => Err(error.to_string()),
    }
}

fn names(list: &[&str]) -> Vec<String> {
    list.iter().map(|name| name.to_string()).collect()
}

#[test]
fn quoted_and_unquoted_give_the_same_path() {
    let from_tokens = quoted_or_unquoted("a :: b :: c").unwrap();
    let from_literal = quoted_or_unquoted("\"a::b::c\"").unwrap();
    assert_eq!(from_tokens, names(&["a", "b", "c"]));
    assert_eq!(from_literal, from_tokens);
    assert_eq!(unquoted("a::b::c").unwrap(), from_tokens);
}

#[test]
fn single_segment() {
    assert_eq!(unquoted("name").unwrap(), names(&["name"]));
    assert_eq!(quoted_or_unquoted("name").unwrap(), names(&["name"]));
    assert_eq!(quoted_or_unquoted("\"name\"").unwrap(), names(&["name"]));
}

#[test]
fn trailing_separator_is_malformed() {
    let at_the_end = "unexpected end of input, expected path segment";
    assert_eq!(unquoted("a::").unwrap_err(), at_the_end);
    assert_eq!(quoted_or_unquoted("a::").unwrap_err(), at_the_end);
    assert_eq!(quoted_or_unquoted("\"a::\"").unwrap_err(), at_the_end);
    assert_eq!(unquoted("a::b::").unwrap_err(), at_the_end);
    assert_eq!(unquoted("a::1").unwrap_err(), "expected path segment");
}

#[test]
fn empty_path_is_malformed() {
    let at_the_end = "unexpected end of input, expected path";
    assert_eq!(quoted_or_unquoted("\"\"").unwrap_err(), at_the_end);
    assert_eq!(quoted_or_unquoted("").unwrap_err(), at_the_end);
    assert_eq!(unquoted("").unwrap_err(), at_the_end);
}

#[test]
fn path_that_starts_with_something_else_is_malformed() {
    assert_eq!(unquoted("::a").unwrap_err(), "expected path");
    assert_eq!(unquoted("1").unwrap_err(), "expected path");
    assert_eq!(quoted_or_unquoted("\"::a\"").unwrap_err(), "expected path");
    assert_eq!(unquoted("\"a\"").unwrap_err(), "expected path");
}

#[test]
fn keywords_and_raw_identifiers_are_segments() {
    assert_eq!(unquoted("type::r#move::self").unwrap(), names(&["type", "r#move", "self"]));
    assert_eq!(
        quoted_or_unquoted("\"impl::r#fn::_x\"").unwrap(),
        names(&["impl", "r#fn", "_x"])
    );
}

#[test]
fn unquoted_path_stops_at_the_first_token_that_is_not_part_of_it() {
    let parser = |input: ParseStream| {
        let name = QualifiedName::parse_unquoted(&mut Tokens { input }).map_err(|malformed| malformed.error)?;
        let rest: proc_macro2::TokenStream = input.parse()?;
        Ok((segments(&name), rest.to_string()))
    };
    let (name, rest) = parser.parse_str("a::b = c").unwrap();
    assert_eq!(name, names(&["a", "b"]));
    assert_eq!(rest, "= c");
    let (name, rest) = parser.parse_str("a b::c").unwrap();
    assert_eq!(name, names(&["a"]));
    assert_eq!(rest, "b :: c");
}

#[test]
fn quoted_path_has_to_be_the_whole_literal() {
    assert!(quoted_or_unquoted("\"a::b c\"").is_err());
    assert!(quoted_or_unquoted("\"a::b::\"").is_err());
    assert!(quoted_or_unquoted("\"a:b\"").is_err());
}

#[test]
fn literal_is_taken_from_the_stream() {
    let parser = |input: ParseStream| {
        let name =
            QualifiedName::parse_quoted_or_unquoted(&mut Tokens { input }).map_err(|malformed| malformed.error)?;
        let rest: proc_macro2::TokenStream = input.parse()?;
        Ok((segments(&name), rest.to_string()))
    };
    let (name, rest) = parser.parse_str("\"x::y\" , z").unwrap();
    assert_eq!(name, names(&["x", "y"]));
    assert_eq!(rest, ", z");
}

#[test]
fn single_colon_is_no_separator() {
    let parser = |input: ParseStream| {
        let name = QualifiedName::parse_unquoted(&mut Tokens { input }).map_err(|malformed| malformed.error)?;
        let rest: proc_macro2::TokenStream = input.parse()?;
        Ok((segments(&name), rest.to_string()))
    };
    let (name, rest) = parser.parse_str("a : b").unwrap();
    assert_eq!(name, names(&["a"]));
    assert_eq!(rest, ": b");
}

#[test]
fn segments_decide_the_outcome() {
    let ident = |name: &str| syn::Ident::new(name, proc_macro2::Span::call_site());
    assert_eq!(QualifiedName::from_segments(vec![], true).unwrap_err(), PathFault::Empty);
    assert_eq!(QualifiedName::from_segments(vec![], false).unwrap_err(), PathFault::Empty);
    assert_eq!(
        QualifiedName::from_segments(vec![ident("a")], true).unwrap_err(),
        PathFault::TrailingSeparator
    );
    let name = QualifiedName::from_segments(vec![ident("a"), ident("b")], false).unwrap();
    assert_eq!(segments(&name), names(&["a", "b"]));
}

#[test]
fn fault_messages() {
    assert_eq!(PathFault::Empty.message(), "expected path");
    assert_eq!(PathFault::TrailingSeparator.message(), "expected path segment");
}

#[test]
fn two_separators_in_a_row_are_malformed() {
    assert_eq!(unquoted("a :: :: b").unwrap_err(), "expected path segment");
    assert!(quoted_or_unquoted("\"a::::b\"").is_err());
}

#[test]
fn malformed_path_takes_what_was_read() {
    let parser = |input: ParseStream| {
        let failed = QualifiedName::parse_unquoted(&mut Tokens { input }).is_err();
        let rest: proc_macro2::TokenStream = input.parse()?;
        Ok((failed, rest.to_string()))
    };
    assert_eq!(parser.parse_str("a :: , b").unwrap(), (true, ", b".to_string()));
    assert_eq!(parser.parse_str(":: a").unwrap(), (true, ":: a".to_string()));
    assert_eq!(parser.parse_str("a :: b :: 1").unwrap(), (true, "1".to_string()));
}

#[test]
fn failure_inside_a_literal_takes_the_literal_and_nothing_else() {
    let parser = |input: ParseStream| {
        let failed = QualifiedName::parse_quoted_or_unquoted(&mut Tokens { input }).is_err();
        let rest: proc_macro2::TokenStream = input.parse()?;
        Ok((failed, rest.to_string()))
    };
    assert_eq!(parser.parse_str("\"a::\" b").unwrap(), (true, "b".to_string()));
    assert_eq!(parser.parse_str("\"a b\" :: c").unwrap(), (true, ":: c".to_string()));
    assert_eq!(parser.parse_str("\"(\" x").unwrap(), (true, "x".to_string()));
    assert_eq!(parser.parse_str("\"a::b\"suffix x").unwrap(), (true, "x".to_string()));
    assert_eq!(parser.parse_str("\"a::b\" x").unwrap(), (false, "x".to_string()));
    assert_eq!(parser.parse_str("r#\"a::b\"# x").unwrap(), (false, "x".to_string()));
}

#[test]
fn other_literals_are_no_path() {
    assert_eq!(quoted_or_unquoted("1").unwrap_err(), "expected path");
    assert_eq!(quoted_or_unquoted("b\"a\"").unwrap_err(), "expected path");
    assert_eq!(quoted_or_unquoted("true").unwrap(), names(&["true"]));
}
