use river_lang::parser::{
    bits, dim, group, new, parse, parse_items, parse_with_limit, rev, river_parameters, river_type, root, union,
    ParseError, MAX_DEPTH,
};
use river_lang::river::{River, RiverParameters};

fn params(n: Option<usize>, c: Option<usize>, u: Option<usize>) -> RiverParameters {
    RiverParameters {
        elements: n,
        complexity: c,
        userbits: u,
    }
}

#[test]
fn parse_river_parameters() {
    assert_eq!(
        river_parameters("3, 4, 5"),
        Ok((
            "",
            RiverParameters {
                elements: Some(3),
                complexity: Some(4),
                userbits: Some(5)
            }
        ))
    );
    assert!(river_parameters("").is_err());
    assert_eq!(
        river_parameters("1"),
        Ok((
            "",
            RiverParameters {
                elements: Some(1),
                complexity: None,
                userbits: None
            }
        ))
    );
    assert_eq!(
        river_parameters("1,2"),
        Ok((
            "",
            RiverParameters {
                elements: Some(1),
                complexity: Some(2),
                userbits: None
            }
        ))
    );
    assert_eq!(river_parameters("1,2"), river_parameters("1,2,"));
    assert_eq!(
        river_parameters("1,,3"),
        Ok((
            "",
            RiverParameters {
                elements: Some(1),
                complexity: None,
                userbits: Some(3)
            }
        ))
    );
}

#[test]
fn parse_bits() {
    assert_eq!(bits("Bits<8>"), Ok(("", River::Bits(8))));
    assert!(bits("Bits<>").is_err());
    assert!(bits("bits<8>").is_err());
}

#[test]
fn parse_root() {
    assert_eq!(
        root("Root<Bits<8>, 1, 2, 3>"),
        Ok((
            "",
            River::Root(
                Box::new(River::Bits(8)),
                RiverParameters {
                    elements: Some(1),
                    complexity: Some(2),
                    userbits: Some(3)
                }
            )
        ))
    );
    assert_eq!(
        root("Root<Bits<8>>"),
        Ok((
            "",
            River::Root(Box::new(River::Bits(8)), RiverParameters::default())
        ))
    );
}

#[test]
fn parse_group() {
    assert_eq!(
        group("Group<Bits<4>, Bits<8>>"),
        Ok(("", River::Group(vec![River::Bits(4), River::Bits(8)])))
    );
}

#[test]
fn parse_dim() {
    assert_eq!(
        dim("Dim<Bits<8>, 1, 2, 3>"),
        Ok((
            "",
            River::Dim(
                Box::new(River::Bits(8)),
                RiverParameters {
                    elements: Some(1),
                    complexity: Some(2),
                    userbits: Some(3)
                }
            )
        ))
    );
}

#[test]
fn parse_new() {
    assert_eq!(
        new("New<Bits<7>, 3, 2, 1>"),
        Ok((
            "",
            River::New(
                Box::new(River::Bits(7)),
                RiverParameters {
                    elements: Some(3),
                    complexity: Some(2),
                    userbits: Some(1)
                }
            )
        ))
    );
}

#[test]
fn parse_rev() {
    assert_eq!(
        rev("Rev<Bits<8>, 11, 22, 33>"),
        Ok((
            "",
            River::Rev(
                Box::new(River::Bits(8)),
                RiverParameters {
                    elements: Some(11),
                    complexity: Some(22),
                    userbits: Some(33)
                }
            )
        ))
    );
}

#[test]
fn parse_union() {
    assert_eq!(
        union("Union<Bits<8>, Bits<4>>"),
        Ok(("", River::Union(vec![River::Bits(8), River::Bits(4)])))
    );
}

#[test]
fn parse_river_type() {
    assert_eq!(river_type("Bits<8>"), Ok(("", River::Bits(8))));
}

#[test]
fn literal_forms_parse_to_what_is_written() {
    assert_eq!(parse("Bits<8>"), Ok(River::Bits(8)));
    assert_eq!(
        parse("Root<Bits<8>, 1, 2, 3>"),
        Ok(River::Root(
            Box::new(River::Bits(8)),
            params(Some(1), Some(2), Some(3))
        ))
    );
    assert_eq!(
        parse("Union<Bits<1>>"),
        Ok(River::Union(vec![River::Bits(1)]))
    );
    assert_eq!(
        parse("Group<Bits<4>>"),
        Ok(River::Group(vec![River::Bits(4)]))
    );
}

#[test]
fn missing_parameters_stay_unspecified() {
    let plain = parse("Root<Bits<8>>");
    assert_eq!(
        plain,
        Ok(River::Root(Box::new(River::Bits(8)), params(None, None, None)))
    );
    assert_eq!(plain, parse("Root<Bits<8>,>"));
    assert_eq!(plain, parse("Root<Bits<8>, >"));
}

#[test]
fn partial_parameters() {
    assert_eq!(
        parse("Dim<Bits<8>, 1>"),
        Ok(River::Dim(Box::new(River::Bits(8)), params(Some(1), None, None)))
    );
    assert_eq!(
        parse("Dim<Bits<8>, 1,,3>"),
        Ok(River::Dim(Box::new(River::Bits(8)), params(Some(1), None, Some(3))))
    );
}

#[test]
fn space_after_comma_changes_nothing() {
    assert_eq!(
        parse("Group<Bits<3>,Bits<8>>"),
        parse("Group<Bits<3>, Bits<8>>")
    );
    assert_eq!(
        parse("Group<Bits<3>,\tBits<8>>"),
        parse("Group<Bits<3>, Bits<8>>")
    );
    assert_eq!(
        parse("Rev<Bits<1>,1,2,3>"),
        parse("Rev<Bits<1>, 1,  2, 3>")
    );
    assert!(parse("Group<Bits<3> ,Bits<8>>").is_err());
    assert!(parse("Group< Bits<3>>").is_err());
}

#[test]
fn empty_composites_fail() {
    assert_eq!(parse("Group<>"), Err(ParseError { offset: 6 }));
    assert_eq!(parse("Union<>"), Err(ParseError { offset: 6 }));
}

#[test]
fn nested_types() {
    assert_eq!(
        parse("Root<Group<Bits<3>, Dim<Bits<4>,1,2,3>>, 1, 2, 3>"),
        Ok(River::Root(
            Box::new(River::Group(vec![
                River::Bits(3),
                River::Dim(Box::new(River::Bits(4)), params(Some(1), Some(2), Some(3))),
            ])),
            params(Some(1), Some(2), Some(3))
        ))
    );
}

#[test]
fn malformed_input_fails() {
    assert_eq!(parse("Bits<>"), Err(ParseError { offset: 5 }));
    assert_eq!(parse("bits<8>"), Err(ParseError { offset: 0 }));
    assert_eq!(parse(""), Err(ParseError { offset: 0 }));
    assert_eq!(parse("Bits<8"), Err(ParseError { offset: 6 }));
    assert_eq!(parse("Root<Bits<8>, 1, 2, 3, 4>"), Err(ParseError { offset: 21 }));
    assert_eq!(parse("Root<Bits<8>,,2>"), Err(ParseError { offset: 13 }));
    assert_eq!(parse("Group<Bits<4>,>"), Err(ParseError { offset: 13 }));
    assert_eq!(parse("Group<Bits<4>, Bits<>>"), Err(ParseError { offset: 13 }));
}

#[test]
fn too_large_integers_fail() {
    assert_eq!(
        parse("Bits<99999999999999999999999999>"),
        Err(ParseError { offset: 5 })
    );
    assert_eq!(
        parse("Root<Bits<1>, 1, 99999999999999999999999999>"),
        Err(ParseError { offset: 17 })
    );
}

#[test]
fn trailing_input() {
    assert_eq!(parse("Bits<8>x"), Err(ParseError { offset: 7 }));
    assert_eq!(
        river_type("Bits<8>, rest"),
        Ok((", rest", River::Bits(8)))
    );
    assert_eq!(
        river_parameters("1, 2, 3, 4"),
        Ok((", 4", params(Some(1), Some(2), Some(3))))
    );
}

#[test]
fn form_parsers_take_only_their_form() {
    assert!(root("Dim<Bits<8>>").is_err());
    assert!(group("Union<Bits<8>>").is_err());
    assert!(union("Group<Bits<8>>").is_err());
    assert!(dim("Root<Bits<8>>").is_err());
    assert!(new("Rev<Bits<8>>").is_err());
    assert!(rev("New<Bits<8>>").is_err());
    assert_eq!(
        new("New<Bits<8>>"),
        Ok(("", River::New(Box::new(River::Bits(8)), params(None, None, None))))
    );
}

#[test]
fn multi_digit_values() {
    assert_eq!(parse("Bits<0>"), Ok(River::Bits(0)));
    assert_eq!(parse("Bits<007>"), Ok(River::Bits(7)));
    assert_eq!(parse("Bits<1234567>"), Ok(River::Bits(1234567)));
}

#[test]
fn nesting_is_bounded() {
    let mut deep = String::new();
    for _ in 0..MAX_DEPTH {
        deep.push_str("Root<");
    }
    deep.push_str("Bits<1>");
    for _ in 0..MAX_DEPTH {
        deep.push('>');
    }
    assert_eq!(parse(&deep), Err(ParseError { offset: 5 * MAX_DEPTH }));
    assert!(parse_with_limit(&deep, MAX_DEPTH + 1).is_ok());
    assert_eq!(
        parse_with_limit("Root<Bits<1>>", 1),
        Err(ParseError { offset: 5 })
    );
    assert_eq!(
        parse_with_limit("Root<Bits<1>>", 2),
        Ok(River::Root(Box::new(River::Bits(1)), params(None, None, None)))
    );
    assert_eq!(
        parse_with_limit("Group<Bits<1>, Root<Bits<2>>>", 2),
        Err(ParseError { offset: 13 })
    );
    assert_eq!(parse_with_limit("Bits<1>", 0), Err(ParseError { offset: 0 }));
}

#[test]
fn list_ends_before_a_comma_that_no_type_follows() {
    let s: Vec<char> = "Bits<3>,x".chars().collect();
    assert_eq!(parse_items(&s, 0, MAX_DEPTH), Ok((vec![River::Bits(3)], 7)));
    let s: Vec<char> = "Bits<3>, Bits<4>,>".chars().collect();
    assert_eq!(
        parse_items(&s, 0, MAX_DEPTH),
        Ok((vec![River::Bits(3), River::Bits(4)], 16))
    );
    let s: Vec<char> = "x,Bits<3>".chars().collect();
    assert_eq!(parse_items(&s, 0, MAX_DEPTH), Err(0));
}
