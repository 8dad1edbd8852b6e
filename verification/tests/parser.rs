use romero::dat::{parse_events, DatError};
use romero::xml::{XmlAttr, XmlEvent};

fn attr(key: &str, value: &str) -> XmlAttr {
    XmlAttr::new(key.to_owned(), value.to_owned())
}

fn start(name: &str, attrs: Vec<XmlAttr>) -> XmlEvent {
    XmlEvent::Start(name.to_owned(), attrs)
}

fn empty(name: &str, attrs: Vec<XmlAttr>) -> XmlEvent {
    XmlEvent::Empty(name.to_owned(), attrs)
}

fn end(name: &str) -> XmlEvent {
    XmlEvent::End(name.to_owned())
}

fn text(t: &str) -> XmlEvent {
    XmlEvent::Text(t.to_owned())
}

#[test]
fn entry_count_matches_pairs() {
    let evs = vec![
        start("datafile", vec![]),
        start("game", vec![attr("name", "One")]),
        end("game"),
        start("game", vec![attr("name", "Two")]),
        end("game"),
        end("datafile"),
        XmlEvent::Eof,
    ];
    let d = parse_events(&evs).unwrap();
    assert_eq!(d.games.len(), 2);
    assert_eq!(d.games[0].name, "One");
    assert_eq!(d.games[1].name, "Two");
}

#[test]
fn truncated_entry_is_dropped() {
    let evs = vec![
        start("game", vec![attr("name", "Lost")]),
        empty("rom", vec![attr("name", "a.bin"), attr("sha1", "deadbeef")]),
        XmlEvent::Eof,
    ];
    let d = parse_events(&evs).unwrap();
    assert_eq!(d.games.len(), 0);
}

#[test]
fn orphan_file_produces_no_record() {
    let evs = vec![
        empty("rom", vec![attr("name", "stray.bin"), attr("sha1", "deadbeef")]),
        start("rom", vec![attr("name", "stray2.bin")]),
        end("rom"),
        start("game", vec![attr("name", "G")]),
        end("game"),
        XmlEvent::Eof,
    ];
    let d = parse_events(&evs).unwrap();
    assert_eq!(d.games.len(), 1);
    assert_eq!(d.games[0].roms.len(), 0);
}

#[test]
fn entry_name_attribute_never_sets_catalog_name() {
    let evs = vec![
        start("game", vec![attr("name", "Not The Catalog")]),
        end("game"),
        XmlEvent::Eof,
    ];
    let d = parse_events(&evs).unwrap();
    assert_eq!(d.name, "");
    assert_eq!(d.games[0].name, "Not The Catalog");
}

#[test]
fn header_name_comes_from_header_text_node() {
    let evs = vec![
        start("header", vec![]),
        start("name", vec![attr("name", "attribute, not text")]),
        text("The Catalog"),
        end("name"),
        end("header"),
        start("game", vec![attr("name", "G")]),
        end("game"),
        XmlEvent::Eof,
    ];
    let d = parse_events(&evs).unwrap();
    assert_eq!(d.name, "The Catalog");
}

#[test]
fn name_node_inside_entry_does_not_set_catalog_name() {
    let evs = vec![
        start("game", vec![attr("name", "G")]),
        start("name", vec![]),
        text("inner"),
        end("name"),
        end("game"),
        XmlEvent::Eof,
    ];
    let d = parse_events(&evs).unwrap();
    assert_eq!(d.name, "");
}

#[test]
fn empty_header_name_node_keeps_earlier_name() {
    let evs = vec![
        start("name", vec![]),
        text("Keep"),
        end("name"),
        start("name", vec![]),
        end("name"),
        XmlEvent::Eof,
    ];
    let d = parse_events(&evs).unwrap();
    assert_eq!(d.name, "Keep");
}

#[test]
fn missing_checksum_degrades_to_empty() {
    let evs = vec![
        start("game", vec![attr("name", "G")]),
        empty("rom", vec![attr("name", "a.bin")]),
        end("game"),
        XmlEvent::Eof,
    ];
    let d = parse_events(&evs).unwrap();
    assert_eq!(d.games[0].roms.len(), 1);
    assert_eq!(d.games[0].roms[0].name, "a.bin");
    assert_eq!(d.games[0].roms[0].sha1, "");
}

#[test]
fn self_closing_and_open_close_file_tags_agree() {
    let attrs = || vec![attr("name", "a.bin"), attr("sha1", "deadbeef")];
    let via_empty = vec![
        start("game", vec![attr("name", "G")]),
        empty("rom", attrs()),
        end("game"),
        XmlEvent::Eof,
    ];
    let via_pair = vec![
        start("game", vec![attr("name", "G")]),
        start("rom", attrs()),
        end("rom"),
        end("game"),
        XmlEvent::Eof,
    ];
    let a = parse_events(&via_empty).unwrap();
    let b = parse_events(&via_pair).unwrap();
    assert_eq!(a.games[0].roms.len(), 1);
    assert_eq!(b.games[0].roms.len(), 1);
    assert_eq!(a.games[0].roms[0].name, b.games[0].roms[0].name);
    assert_eq!(a.games[0].roms[0].sha1, b.games[0].roms[0].sha1);
}

#[test]
fn repeated_attribute_last_wins() {
    let evs = vec![
        start("game", vec![attr("name", "first"), attr("name", "second")]),
        end("game"),
        XmlEvent::Eof,
    ];
    let d = parse_events(&evs).unwrap();
    assert_eq!(d.games[0].name, "second");
}

#[test]
fn references_join_header_text() {
    let evs = vec![
        start("name", vec![]),
        text("Test "),
        XmlEvent::Ref(Some("&".to_owned())),
        text(" Co"),
        end("name"),
        XmlEvent::Eof,
    ];
    let d = parse_events(&evs).unwrap();
    assert_eq!(d.name, "Test & Co");
}

#[test]
fn unresolvable_reference_in_header_fails() {
    let evs = vec![start("name", vec![]), XmlEvent::Ref(None), end("name"), XmlEvent::Eof];
    let e = parse_events(&evs).unwrap_err();
    assert!(matches!(e, DatError::HeaderText));
}

#[test]
fn unresolvable_reference_outside_header_is_ignored() {
    let evs = vec![
        start("game", vec![attr("name", "G")]),
        XmlEvent::Ref(None),
        end("game"),
        XmlEvent::Eof,
    ];
    let d = parse_events(&evs).unwrap();
    assert_eq!(d.games.len(), 1);
    assert_eq!(d.name, "");
}

#[test]
fn events_after_eof_are_not_folded() {
    let evs = vec![
        start("game", vec![attr("name", "G")]),
        end("game"),
        XmlEvent::Eof,
        start("game", vec![attr("name", "late")]),
        end("game"),
    ];
    let d = parse_events(&evs).unwrap();
    assert_eq!(d.games.len(), 1);
}

#[test]
fn stray_close_is_a_no_op() {
    let evs = vec![
        end("game"),
        start("game", vec![attr("name", "G")]),
        end("game"),
        XmlEvent::Eof,
    ];
    let d = parse_events(&evs).unwrap();
    assert_eq!(d.games.len(), 1);
    assert_eq!(d.games[0].name, "G");
}
