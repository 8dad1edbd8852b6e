use romero::dat::{parse_dat, DatError};

#[test]
fn round_trip_stub() {
    let input = br#"<datafile>
  <header><name>Test Catalog</name></header>
  <game name="Game A">
    <rom name="a.bin" sha1="deadbeef" />
    <rom name="b.bin" sha1="feedface" />
  </game>
</datafile>"#;
    let d = parse_dat(input).unwrap();
    assert_eq!(d.name, "Test Catalog");
    assert_eq!(d.games.len(), 1);
    assert_eq!(d.games[0].name, "Game A");
    assert_eq!(d.games[0].roms.len(), 2);
    assert_eq!(d.games[0].roms[0].name, "a.bin");
    assert_eq!(d.games[0].roms[0].sha1, "deadbeef");
    assert_eq!(d.games[0].roms[1].name, "b.bin");
    assert_eq!(d.games[0].roms[1].sha1, "feedface");
}

#[test]
fn header_entities_are_unescaped() {
    let input = br#"<datafile><header><name>Test &amp; Co &#x41;</name></header></datafile>"#;
    let d = parse_dat(input).unwrap();
    assert_eq!(d.name, "Test & Co A");
}

#[test]
fn header_name_is_trimmed_at_the_node_edges() {
    let input = b"<d><header><name>  Spaced Out\n</name></header></d>";
    let d = parse_dat(input).unwrap();
    assert_eq!(d.name, "Spaced Out");
}

#[test]
fn missing_checksum_is_not_an_error() {
    let input = br#"<datafile><game name="G"><rom name="a.bin"/></game></datafile>"#;
    let d = parse_dat(input).unwrap();
    assert_eq!(d.games[0].roms[0].name, "a.bin");
    assert_eq!(d.games[0].roms[0].sha1, "");
}

#[test]
fn self_closing_equals_open_close() {
    let a = parse_dat(br#"<d><game name="G"><rom name="a" sha1="ff"/></game></d>"#).unwrap();
    let b = parse_dat(br#"<d><game name="G"><rom name="a" sha1="ff"></rom></game></d>"#).unwrap();
    assert_eq!(a.games[0].roms.len(), 1);
    assert_eq!(b.games[0].roms.len(), 1);
    assert_eq!(a.games[0].roms[0].name, b.games[0].roms[0].name);
    assert_eq!(a.games[0].roms[0].sha1, b.games[0].roms[0].sha1);
}

#[test]
fn truncated_document_drops_open_entry() {
    let input = br#"<datafile><game name="Kept"></game><game name="Lost"><rom name="a.bin" sha1="ff"/>"#;
    let d = parse_dat(input).unwrap();
    assert_eq!(d.games.len(), 1);
    assert_eq!(d.games[0].name, "Kept");
}

#[test]
fn malformed_xml_is_a_syntax_error() {
    let e = parse_dat(b"<datafile><game name=></datafile>").unwrap_err();
    assert!(matches!(e, DatError::Syntax(_)));
}

#[test]
fn unterminated_tag_is_a_syntax_error() {
    let e = parse_dat(b"<datafile><game").unwrap_err();
    assert!(matches!(e, DatError::Syntax(_)));
}

#[test]
fn orphan_rom_in_document_is_ignored() {
    let input = br#"<d><rom name="stray" sha1="00"/><game name="G"/><game name="H"><rom name="kept" sha1="11"/></game></d>"#;
    let d = parse_dat(input).unwrap();
    assert_eq!(d.games.len(), 1);
    assert_eq!(d.games[0].name, "H");
    assert_eq!(d.games[0].roms.len(), 1);
    assert_eq!(d.games[0].roms[0].name, "kept");
}

#[test]
fn empty_document_yields_empty_catalog() {
    let d = parse_dat(b"").unwrap();
    assert_eq!(d.name, "");
    assert_eq!(d.games.len(), 0);
}

#[test]
fn entry_name_attribute_does_not_become_catalog_name() {
    let input = br#"<d><game name="Only Entry"></game></d>"#;
    let d = parse_dat(input).unwrap();
    assert_eq!(d.name, "");
    assert_eq!(d.games[0].name, "Only Entry");
}

#[test]
fn missing_entry_name_degrades_to_empty() {
    let input = br#"<d><game><rom name="a" sha1="ff"/></game></d>"#;
    let d = parse_dat(input).unwrap();
    assert_eq!(d.games.len(), 1);
    assert_eq!(d.games[0].name, "");
    assert_eq!(d.games[0].roms.len(), 1);
}

#[test]
fn later_header_name_node_overwrites_earlier() {
    let input = b"<d><header><name>First</name><name>Second</name></header></d>";
    let d = parse_dat(input).unwrap();
    assert_eq!(d.name, "Second");
}

#[test]
fn empty_second_header_name_node_is_harmless() {
    let input = b"<d><header><name>Keep</name><name></name></header></d>";
    let d = parse_dat(input).unwrap();
    assert_eq!(d.name, "Keep");
}

#[test]
fn comments_and_declarations_are_ignored() {
    let input = br#"<?xml version="1.0"?><!-- c --><d><game name="G"/><game name="H"></game></d>"#;
    let d = parse_dat(input).unwrap();
    assert_eq!(d.games.len(), 1);
    assert_eq!(d.games[0].name, "H");
}
