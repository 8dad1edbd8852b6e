//! Laws the parser obeys, stated over the event-level model and proved once
//! for all inputs.

use crate::dat::{
    game_elem, init_state, name_elem, no_eof, parse_spec, rom_elem, run_spec, sha1_attr,
    start_step, step_spec, trimmed, GameSpec, RomSpec, StateSpec,
};
use crate::xml::{attr_lookup, lemma_attr_lookup_absent, XmlAttr, XmlEvent};
use vstd::prelude::*;

verus! {

/// Whether an event opens a catalog entry.
pub open spec fn is_entry_open(ev: XmlEvent) -> bool {
    ev is Start && ev->Start_0@ == game_elem()
}

/// Whether an event closes a catalog entry.
pub open spec fn is_entry_close(ev: XmlEvent) -> bool {
    ev is End && ev->End_0@ == game_elem()
}

/// How many events before the first end-of-document event open an entry.
pub open spec fn entry_open_count(evs: Seq<XmlEvent>) -> nat
    decreases evs.len(),
{
    if evs.len() == 0 || evs[0] is Eof {
        0
    } else {
        (if is_entry_open(evs[0]) {
            1nat
        } else {
            0nat
        }) + entry_open_count(evs.skip(1))
    }
}

/// How many events before the first end-of-document event close an entry.
pub open spec fn entry_close_count(evs: Seq<XmlEvent>) -> nat
    decreases evs.len(),
{
    if evs.len() == 0 || evs[0] is Eof {
        0
    } else {
        (if is_entry_close(evs[0]) {
            1nat
        } else {
            0nat
        }) + entry_close_count(evs.skip(1))
    }
}

/// Whether entry opens and closes alternate strictly, starting from a state
/// where an entry is open iff `open`, with every opened entry closed before
/// the stream (or the first end-of-document event) ends.
pub open spec fn entries_balanced_from(open: bool, evs: Seq<XmlEvent>) -> bool
    decreases evs.len(),
{
    if evs.len() == 0 || evs[0] is Eof {
        !open
    } else if is_entry_open(evs[0]) {
        !open && entries_balanced_from(true, evs.skip(1))
    } else if is_entry_close(evs[0]) {
        open && entries_balanced_from(false, evs.skip(1))
    } else {
        entries_balanced_from(open, evs.skip(1))
    }
}

/// A well-formed stream: entry opens and closes alternate and none stays open.
pub open spec fn entries_balanced(evs: Seq<XmlEvent>) -> bool {
    entries_balanced_from(false, evs)
}

/// The three element names the parser distinguishes differ pairwise.
proof fn lemma_elems_distinct()
    ensures
        game_elem() != rom_elem(),
        game_elem() != name_elem(),
        rom_elem() != name_elem(),
{
    reveal_strlit("game");
    reveal_strlit("rom");
    reveal_strlit("name");
    assert(game_elem().len() == 4 && rom_elem().len() == 3 && name_elem().len() == 4);
    assert(game_elem()[0] != name_elem()[0]);
}

/// Along a balanced stream, each close appends exactly one entry, and the
/// final state has no entry left open.
proof fn lemma_run_games_count(s: StateSpec, evs: Seq<XmlEvent>)
    requires
        entries_balanced_from(s.current is Some, evs),
        run_spec(s, evs) is Some,
    ensures
        run_spec(s, evs)->0.games.len() == s.games.len() + entry_close_count(evs),
        run_spec(s, evs)->0.current is None,
    decreases evs.len(),
{
    if evs.len() == 0 || evs[0] is Eof {
    } else {
        let ev = evs[0];
        let s2 = step_spec(s, ev)->0;
        assert(step_spec(s, ev) == Some(s2));
        lemma_elems_distinct();
        assert(s2.games.len() == s.games.len() + (if is_entry_close(ev) {
            1int
        } else {
            0int
        }));
        assert((s2.current is Some) == (if is_entry_open(ev) {
            true
        } else if is_entry_close(ev) {
            false
        } else {
            s.current is Some
        }));
        lemma_run_games_count(s2, evs.skip(1));
    }
}

/// Along a balanced stream, opens and closes pair off.
proof fn lemma_balanced_counts(open: bool, evs: Seq<XmlEvent>)
    requires
        entries_balanced_from(open, evs),
    ensures
        entry_open_count(evs) + (if open {
            1nat
        } else {
            0nat
        }) == entry_close_count(evs),
    decreases evs.len(),
{
    if evs.len() == 0 || evs[0] is Eof {
    } else if is_entry_open(evs[0]) {
        lemma_balanced_counts(true, evs.skip(1));
    } else if is_entry_close(evs[0]) {
        lemma_balanced_counts(false, evs.skip(1));
    } else {
        lemma_balanced_counts(open, evs.skip(1));
    }
}

/// For every well-formed stream — entry opens and closes alternate strictly
/// and every opened entry is closed — the catalog holds exactly one entry per
/// open/close pair.
pub proof fn lemma_entry_count(evs: Seq<XmlEvent>)
    requires
        entries_balanced(evs),
        parse_spec(evs) is Some,
    ensures
        parse_spec(evs)->0.games.len() == entry_close_count(evs),
        entry_open_count(evs) == entry_close_count(evs),
{
    lemma_run_games_count(init_state(), evs);
    lemma_balanced_counts(false, evs);
}

/// A step never appends more entries than it closes.
proof fn lemma_run_games_bound(s: StateSpec, evs: Seq<XmlEvent>)
    requires
        run_spec(s, evs) is Some,
    ensures
        run_spec(s, evs)->0.games.len() <= s.games.len() + entry_close_count(evs),
    decreases evs.len(),
{
    if evs.len() == 0 || evs[0] is Eof {
    } else {
        let ev = evs[0];
        let s2 = step_spec(s, ev)->0;
        assert(step_spec(s, ev) == Some(s2));
        lemma_elems_distinct();
        assert(s2.games.len() <= s.games.len() + (if is_entry_close(ev) {
            1int
        } else {
            0int
        }));
        lemma_run_games_bound(s2, evs.skip(1));
    }
}

/// An entry whose opening tag appears but whose closing tag never does is
/// absent from the catalog: entries come only from closes, so a stream
/// without a close yields no entry at all.
pub proof fn lemma_truncated_entry_dropped(evs: Seq<XmlEvent>)
    requires
        parse_spec(evs) is Some,
    ensures
        parse_spec(evs)->0.games.len() <= entry_close_count(evs),
        entry_close_count(evs) == 0 ==> parse_spec(evs)->0.games.len() == 0,
{
    lemma_run_games_bound(init_state(), evs);
}

/// Splitting a stream: folding the whole equals folding the tail from the
/// state the prefix reaches, when the prefix ends no document.
pub proof fn lemma_run_append(s: StateSpec, a: Seq<XmlEvent>, b: Seq<XmlEvent>)
    requires
        no_eof(a),
        run_spec(s, a) is Some,
    ensures
        run_spec(s, a + b) == run_spec(run_spec(s, a)->0, b),
    decreases a.len(),
{
    if a.len() == 0 {
        assert(a + b =~= b);
    } else {
        assert((a + b)[0] == a[0]);
        assert(!(a[0] is Eof));
        let s2 = step_spec(s, a[0])->0;
        assert(step_spec(s, a[0]) == Some(s2));
        assert((a + b).skip(1) =~= a.skip(1) + b);
        assert(no_eof(a.skip(1))) by {
            assert(forall|i: int| 0 <= i < a.skip(1).len() ==> a.skip(1)[i] == a[i + 1]);
        }
        lemma_run_append(s2, a.skip(1), b);
        assert(run_spec(s, a) == run_spec(s2, a.skip(1)));
    }
}

/// A stretch of events that closes no entry appends none: the catalog's
/// entries stay exactly as they were.
proof fn lemma_run_games_const(s: StateSpec, evs: Seq<XmlEvent>)
    requires
        run_spec(s, evs) is Some,
        entry_close_count(evs) == 0,
    ensures
        run_spec(s, evs)->0.games == s.games,
    decreases evs.len(),
{
    if evs.len() == 0 || evs[0] is Eof {
    } else {
        let ev = evs[0];
        let s2 = step_spec(s, ev)->0;
        assert(step_spec(s, ev) == Some(s2));
        assert(!is_entry_close(ev));
        assert(s2.games == s.games);
        lemma_run_games_const(s2, evs.skip(1));
    }
}

/// Entries come only from closes. A catalog parsed from a stream whose tail
/// after some point closes no entry — in particular a tail that opens one
/// last entry and then ends, the truncation case — holds exactly the entries
/// the prefix before that point had produced, in order: every entry closed
/// there is present, and the truncated entry with its files is absent.
pub proof fn lemma_closed_prefix_entries(a: Seq<XmlEvent>, b: Seq<XmlEvent>)
    requires
        no_eof(a),
        run_spec(init_state(), a) is Some,
        parse_spec(a + b) is Some,
        entry_close_count(b) == 0,
    ensures
        parse_spec(a + b)->0.games == run_spec(init_state(), a)->0.games,
{
    lemma_run_append(init_state(), a, b);
    lemma_run_games_const(run_spec(init_state(), a)->0, b);
}

/// A file tag outside any entry scope changes nothing: no record is attached
/// anywhere, and the parse goes on.
pub proof fn lemma_orphan_file_ignored(s: StateSpec, name: String, attrs: Vec<XmlAttr>)
    requires
        s.current is None,
        name@ == rom_elem(),
    ensures
        step_spec(s, XmlEvent::Start(name, attrs)) == Some(s),
        step_spec(s, XmlEvent::Empty(name, attrs)) == Some(s),
{
    lemma_elems_distinct();
}

/// No tag event sets the catalog's name: only character data inside the
/// header's name node does (closing that node merely trims what it set). In
/// particular an entry's opening tag leaves it unchanged whatever its
/// attributes hold, so an attribute literally named `name` never overwrites
/// it.
pub proof fn lemma_name_set_only_by_header_text(s: StateSpec, ev: XmlEvent)
    requires
        step_spec(s, ev) is Some,
        !(ev is Text),
        !(ev is Ref),
        !(ev is End && ev->End_0@ == name_elem() && s.in_header_name),
    ensures
        step_spec(s, ev)->0.name == s.name,
{
}

/// Whether an event carries one piece of a text node's content: literal
/// character data, or a reference that resolved.
pub open spec fn is_piece(ev: XmlEvent) -> bool {
    ev is Text || (ev is Ref && ev->Ref_0 is Some)
}

/// The text one piece contributes.
pub open spec fn piece_text(ev: XmlEvent) -> Seq<char> {
    match ev {
        XmlEvent::Text(t) => t@,
        XmlEvent::Ref(r) => r->0@,
        _ => Seq::empty(),
    }
}

/// Whether every event of the sequence is a piece of text-node content.
pub open spec fn all_pieces(ps: Seq<XmlEvent>) -> bool {
    forall|i: int| 0 <= i < ps.len() ==> is_piece(#[trigger] ps[i])
}

/// The concatenated text of a sequence of pieces.
pub open spec fn pieces_text(ps: Seq<XmlEvent>) -> Seq<char>
    decreases ps.len(),
{
    if ps.len() == 0 {
        Seq::empty()
    } else {
        piece_text(ps[0]) + pieces_text(ps.skip(1))
    }
}

/// Folding a single event that does not end the document.
proof fn lemma_run_one(s: StateSpec, ev: XmlEvent)
    requires
        !(ev is Eof),
        step_spec(s, ev) is Some,
    ensures
        run_spec(s, seq![ev]) == step_spec(s, ev),
{
    assert(seq![ev][0] == ev);
    assert(seq![ev].skip(1) =~= Seq::<XmlEvent>::empty());
    assert(run_spec(step_spec(s, ev)->0, Seq::<XmlEvent>::empty()) == Some(step_spec(s, ev)->0));
}

/// Inside the header's name node, with its first piece already folded,
/// further pieces only extend the gathered name.
proof fn lemma_run_pieces(s: StateSpec, ps: Seq<XmlEvent>)
    requires
        all_pieces(ps),
        s.in_header_name,
        !s.header_fresh,
    ensures
        run_spec(s, ps) == Some(StateSpec { name: s.name + pieces_text(ps), ..s }),
    decreases ps.len(),
{
    if ps.len() == 0 {
        assert(s.name + pieces_text(ps) =~= s.name);
        assert(StateSpec { name: s.name + pieces_text(ps), ..s } =~= s);
    } else {
        let p = ps[0];
        assert(is_piece(p));
        let s2 = step_spec(s, p)->0;
        assert(step_spec(s, p) == Some(s2));
        assert(s2 =~= (StateSpec { name: s.name + piece_text(p), ..s }));
        assert(all_pieces(ps.skip(1))) by {
            assert(forall|i: int| 0 <= i < ps.skip(1).len() ==> ps.skip(1)[i] == ps[i + 1]);
        }
        lemma_run_pieces(s2, ps.skip(1));
        assert((s.name + piece_text(p)) + pieces_text(ps.skip(1)) =~= s.name + pieces_text(ps));
        assert((StateSpec { name: s2.name + pieces_text(ps.skip(1)), ..s2 }) =~= (StateSpec {
            name: s.name + pieces_text(ps),
            ..s
        }));
    }
}

/// The header name comes from the header's name node alone: folding the
/// whole node — its opening tag, its pieces of character data (text and
/// resolved references), its closing tag — from any state outside an entry
/// sets the catalog name to exactly the trimmed concatenation of those
/// pieces, and touches nothing else in the state.
pub proof fn lemma_header_name_from_node(
    s: StateSpec,
    name_tag: String,
    attrs: Vec<XmlAttr>,
    ps: Seq<XmlEvent>,
)
    requires
        s.current is None,
        name_tag@ == name_elem(),
        all_pieces(ps),
        ps.len() > 0,
    ensures
        ({
            let evs = seq![XmlEvent::Start(name_tag, attrs)] + ps + seq![
                XmlEvent::End(name_tag),
            ];
            run_spec(s, evs) == Some(
                StateSpec {
                    name: trimmed(pieces_text(ps)),
                    in_header_name: false,
                    header_fresh: false,
                    ..s
                },
            )
        }),
{
    lemma_elems_distinct();
    let ev0 = XmlEvent::Start(name_tag, attrs);
    let evn = XmlEvent::End(name_tag);
    let evs = seq![ev0] + ps + seq![evn];
    let s1 = start_step(s, name_tag@, attrs@);
    assert(step_spec(s, ev0) == Some(s1));
    assert(s1.in_header_name && s1.header_fresh);
    assert(no_eof(seq![ev0]));
    lemma_run_one(s, ev0);
    lemma_run_append(s, seq![ev0], ps + seq![evn]);
    assert(evs =~= seq![ev0] + (ps + seq![evn]));

    let p0 = ps[0];
    assert(is_piece(p0));
    let s2 = step_spec(s1, p0)->0;
    assert(step_spec(s1, p0) == Some(s2));
    assert(s2 =~= (StateSpec { name: piece_text(p0), in_header_name: true, header_fresh: false, ..s }));
    lemma_run_one(s1, p0);
    assert(no_eof(seq![p0]));
    lemma_run_append(s1, seq![p0], ps.skip(1) + seq![evn]);
    assert(ps + seq![evn] =~= seq![p0] + (ps.skip(1) + seq![evn]));

    assert(all_pieces(ps.skip(1))) by {
        assert(forall|i: int| 0 <= i < ps.skip(1).len() ==> ps.skip(1)[i] == ps[i + 1]);
    }
    lemma_run_pieces(s2, ps.skip(1));
    let s3 = StateSpec { name: s2.name + pieces_text(ps.skip(1)), ..s2 };
    assert(run_spec(s2, ps.skip(1)) == Some(s3));
    assert(s3.name =~= pieces_text(ps));
    assert(no_eof(ps.skip(1))) by {
        assert(forall|i: int| 0 <= i < ps.skip(1).len() ==> ps.skip(1)[i] == ps[i + 1]);
    }
    lemma_run_append(s2, ps.skip(1), seq![evn]);

    let s4 = step_spec(s3, evn)->0;
    assert(step_spec(s3, evn) == Some(s4));
    lemma_run_one(s3, evn);
    assert(s4 =~= (StateSpec {
        name: trimmed(pieces_text(ps)),
        in_header_name: false,
        header_fresh: false,
        ..s
    }));
    assert(run_spec(s, evs) == Some(s4));
}

/// An entry's opening tag builds the entry from its `name` attribute and
/// leaves the catalog's name as it stands.
pub proof fn lemma_entry_name_attr_ignored(s: StateSpec, name: String, attrs: Vec<XmlAttr>)
    requires
        name@ == game_elem(),
    ensures
        step_spec(s, XmlEvent::Start(name, attrs))->0.name == s.name,
        step_spec(s, XmlEvent::Start(name, attrs))->0.current == Some(
            GameSpec { name: attr_lookup(attrs@, name_elem()), roms: Seq::<RomSpec>::empty() },
        ),
{
}

/// A file tag without a checksum attribute still appends a record — the parse
/// does not fail — and that record's checksum is the empty string.
pub proof fn lemma_missing_checksum_degrades(s: StateSpec, name: String, attrs: Vec<XmlAttr>, g: GameSpec)
    requires
        name@ == rom_elem(),
        s.current == Some(g),
        forall|i: int| 0 <= i < attrs@.len() ==> (#[trigger] attrs@[i]).key@ != sha1_attr(),
    ensures
        step_spec(s, XmlEvent::Empty(name, attrs)) is Some,
        step_spec(s, XmlEvent::Empty(name, attrs))->0.current matches Some(g2)
            && g2.roms.len() == g.roms.len() + 1
            && g2.roms.last().name == attr_lookup(attrs@, name_elem())
            && g2.roms.last().sha1 == Seq::<char>::empty(),
{
    lemma_attr_lookup_absent(attrs@, sha1_attr());
}

/// A self-closing file tag and an opening file tag with the same attributes
/// step the state identically, and the matching closing tag is a no-op; so
/// `<tag/>` and `<tag></tag>` with equal attributes yield the same records.
pub proof fn lemma_self_closing_file_equivalent(s: StateSpec, name: String, attrs: Vec<XmlAttr>)
    requires
        name@ == rom_elem(),
    ensures
        step_spec(s, XmlEvent::Start(name, attrs)) == step_spec(s, XmlEvent::Empty(name, attrs)),
        step_spec(s, XmlEvent::End(name)) == Some(s),
{
    lemma_elems_distinct();
}

} // verus!
