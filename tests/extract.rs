use ministatic::error::Error;
use ministatic::frontmatter::parse;

#[test]
fn extract_title_and_body() {
    let x = parse("+++\ntitle=\"Hello\"\n+++\nworld").unwrap();
    assert_eq!(x.metadata, "title=\"Hello\"");
    assert_eq!(x.body, "world");
    let table: toml::Table = toml::from_str(&x.metadata).unwrap();
    assert_eq!(table["title"].as_str(), Some("Hello"));
}

#[test]
fn extract_trims_metadata_and_leading_body_whitespace() {
    let x = parse("+++  \n  a = 1 \n\n+++ \n\n  body text \n").unwrap();
    assert_eq!(x.metadata, "a = 1");
    assert_eq!(x.body, "body text \n");
}

#[test]
fn extract_empty_block() {
    let x = parse("++++++").unwrap();
    assert_eq!(x.metadata, "");
    assert_eq!(x.body, "");
}

#[test]
fn extract_missing_delimiter_is_malformed() {
    assert!(matches!(parse("title = 1\nbody"), Err(Error::MalformedInput)));
    assert!(matches!(parse(""), Err(Error::MalformedInput)));
}

#[test]
fn extract_delimiter_not_at_start_is_malformed() {
    assert!(matches!(parse(" +++\na=1\n+++\nx"), Err(Error::MalformedInput)));
    assert!(matches!(parse("x\n+++\na=1\n+++\n"), Err(Error::MalformedInput)));
}

#[test]
fn extract_unterminated_block() {
    assert!(matches!(parse("+++\ntitle = \"x\"\n"), Err(Error::UnterminatedBlock)));
    assert!(matches!(parse("+++"), Err(Error::UnterminatedBlock)));
}

#[test]
fn extract_round_trip_through_toml() {
    let x = parse("+++\ntitle = \"A\"\ndescription = \"d\"\n+++\nbody").unwrap();
    let table: toml::Table = toml::from_str(&x.metadata).unwrap();
    let again = format!("+++\n{}\n+++\n{}", toml::to_string(&table).unwrap().trim(), x.body);
    let y = parse(&again).unwrap();
    let table2: toml::Table = toml::from_str(&y.metadata).unwrap();
    assert_eq!(table, table2);
    assert_eq!(y.body, "body");
}
