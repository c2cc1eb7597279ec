use markup_reflow::ast::doctype::{parse_legacy_string, Doctype};
use markup_reflow::ast::ParseError;

#[test]
fn test_parse_legacy_string() {
    assert_eq!(
        parse_legacy_string(r#"SYSTEM "about:legacy-compat""#),
        Ok(("", ()))
    );

    assert_eq!(
        parse_legacy_string("SYSTEM 'about:legacy-compat'"),
        Ok(("", ()))
    );
}

#[test]
fn test_parse_doctype() {
    assert_eq!(
        Doctype::parse("<!DOCTYPE html>"),
        Ok(("", Doctype { legacy: false }))
    );

    assert_eq!(
        Doctype::parse("<!DOCTYPE html SYSTEM 'about:legacy-compat'>"),
        Ok(("", Doctype { legacy: true }))
    );
}

#[test]
fn doctype_keywords_ignore_case() {
    assert_eq!(
        Doctype::parse("<!doctype HTML>"),
        Ok(("", Doctype { legacy: false }))
    );
    assert_eq!(
        Doctype::parse("<!DocType Html system \"about:legacy-compat\">rest"),
        Ok(("rest", Doctype { legacy: true }))
    );
}

#[test]
fn doctype_legacy_string_is_literal() {
    assert_eq!(
        Doctype::parse("<!DOCTYPE html SYSTEM \"ABOUT:legacy-compat\">"),
        Err(ParseError)
    );
    assert_eq!(
        parse_legacy_string("SYSTEM \"about:legacy-compat'"),
        Err(ParseError)
    );
    assert_eq!(parse_legacy_string("SYSTEM\"about:legacy-compat\""), Err(ParseError));
    assert_eq!(
        parse_legacy_string("system \t\n'about:legacy-compat' tail"),
        Ok((" tail", ()))
    );
}

#[test]
fn doctype_rejects_deviations() {
    assert_eq!(Doctype::parse("<!DOCTYPEhtml>"), Err(ParseError));
    assert_eq!(Doctype::parse("<!DOCTYPE xml>"), Err(ParseError));
    assert_eq!(Doctype::parse("<!DOCTYPE html"), Err(ParseError));
    assert_eq!(Doctype::parse("<!DOCTYPE html >"), Err(ParseError));
    assert_eq!(Doctype::parse("<DOCTYPE html>"), Err(ParseError));
    assert_eq!(Doctype::parse("<!DOCTYPE html PUBLIC>"), Err(ParseError));
    assert_eq!(
        Doctype::parse("<!DOCTYPE html SYSTEM \"about:legacy-compat\" >"),
        Err(ParseError)
    );
    assert_eq!(Doctype::parse("<!DOC"), Err(ParseError));
}
