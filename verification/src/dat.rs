//! The catalog data model and the streaming parser that folds a sequence of
//! low-level XML events into one catalog.

use crate::xml::{
    attr_lookup, find_attr, live_prefix, open_stream, str_eq, stream_events, stream_next,
    stream_outcome, xml_error_text, XmlAttr, XmlEvent,
};
use vstd::prelude::*;
use vstd::string::{StrSliceExecFns, StringExecFns};

verus! {

/// One cataloged file: a name and a checksum, both stored verbatim
/// (empty when the source attribute is absent).
#[derive(Debug)]
pub struct Rom {
    pub name: String,
    pub sha1: String,
}

/// One cataloged piece of software: a name and its files in document order.
#[derive(Debug)]
pub struct Game {
    pub name: String,
    pub roms: Vec<Rom>,
}

/// One parsed catalog file: a display name and its entries in document order.
#[derive(Debug)]
pub struct DAT {
    pub name: String,
    pub games: Vec<Game>,
}

/// Mathematical model of a `Rom`.
#[verifier::ext_equal]
pub struct RomSpec {
    pub name: Seq<char>,
    pub sha1: Seq<char>,
}

/// Mathematical model of a `Game`.
#[verifier::ext_equal]
pub struct GameSpec {
    pub name: Seq<char>,
    pub roms: Seq<RomSpec>,
}

/// Mathematical model of a `DAT`.
#[verifier::ext_equal]
pub struct DatSpec {
    pub name: Seq<char>,
    pub games: Seq<GameSpec>,
}

impl View for Rom {
    type V = RomSpec;

    open spec fn view(&self) -> RomSpec {
        RomSpec { name: self.name@, sha1: self.sha1@ }
    }
}

/// The models of a sequence of roms.
pub open spec fn roms_view(roms: Seq<Rom>) -> Seq<RomSpec> {
    roms.map_values(|r: Rom| r@)
}

impl View for Game {
    type V = GameSpec;

    open spec fn view(&self) -> GameSpec {
        GameSpec { name: self.name@, roms: roms_view(self.roms@) }
    }
}

/// The models of a sequence of games.
pub open spec fn games_view(games: Seq<Game>) -> Seq<GameSpec> {
    games.map_values(|g: Game| g@)
}

impl View for DAT {
    type V = DatSpec;

    open spec fn view(&self) -> DatSpec {
        DatSpec { name: self.name@, games: games_view(self.games@) }
    }
}

/// Why a parse failed.
#[derive(Debug)]
pub enum DatError {
    /// The byte stream is not well-formed low-level XML; holds the XML
    /// layer's description of the fault.
    Syntax(String),
    /// A reference inside the header name text could not be resolved.
    HeaderText,
}

/// The tag that opens one catalog entry.
pub open spec fn game_elem() -> Seq<char> {
    "game"@
}

/// The tag of a file record inside an entry, and of the header name node.
pub open spec fn rom_elem() -> Seq<char> {
    "rom"@
}

/// The tag of the header name node, and the key of the name attribute.
pub open spec fn name_elem() -> Seq<char> {
    "name"@
}

/// The key of the checksum attribute on a file tag.
pub open spec fn sha1_attr() -> Seq<char> {
    "sha1"@
}

/// Whether a character is XML whitespace.
pub open spec fn is_xml_ws(c: char) -> bool {
    c == ' ' || c == '\t' || c == '\n' || c == '\r'
}

/// The sequence without its leading whitespace.
pub open spec fn ltrim(s: Seq<char>) -> Seq<char>
    decreases s.len(),
{
    if s.len() > 0 && is_xml_ws(s[0]) {
        ltrim(s.skip(1))
    } else {
        s
    }
}

/// The sequence without its trailing whitespace.
pub open spec fn rtrim(s: Seq<char>) -> Seq<char>
    decreases s.len(),
{
    if s.len() > 0 && is_xml_ws(s.last()) {
        rtrim(s.drop_last())
    } else {
        s
    }
}

/// The sequence without its leading and trailing whitespace.
pub open spec fn trimmed(s: Seq<char>) -> Seq<char> {
    rtrim(ltrim(s))
}

/// Decides whether a character is XML whitespace.
fn is_ws_char(c: char) -> (r: bool)
    ensures
        r == is_xml_ws(c),
{
    c == ' ' || c == '\t' || c == '\n' || c == '\r'
}

/// The string without its leading and trailing whitespace.
fn trim_string(s: &String) -> (r: String)
    ensures
        r@ == trimmed(s@),
{
    let st = s.as_str();
    let n: usize = st.unicode_len();
    proof {
        assert(s@.skip(0) =~= s@);
    }
    let mut i: usize = 0;
    while i < n && is_ws_char(st.get_char(i))
        invariant
            i <= n,
            n == s@.len(),
            st@ == s@,
            ltrim(s@) == ltrim(s@.skip(i as int)),
        decreases n - i,
    {
        proof {
            assert(s@.skip(i as int)[0] == s@[i as int]);
            assert(s@.skip(i as int).skip(1) =~= s@.skip(i + 1 as int));
        }
        i += 1;
    }
    proof {
        if i < n {
            assert(s@.skip(i as int)[0] == s@[i as int]);
        } else {
            assert(s@.skip(i as int) =~= Seq::<char>::empty());
        }
        assert(ltrim(s@) == s@.skip(i as int));
        assert(s@.subrange(i as int, n as int) =~= s@.skip(i as int));
    }
    let mut j: usize = n;
    while j > i && is_ws_char(st.get_char(j - 1))
        invariant
            i <= j <= n,
            n == s@.len(),
            st@ == s@,
            trimmed(s@) == rtrim(s@.subrange(i as int, j as int)),
        decreases j,
    {
        proof {
            let sub = s@.subrange(i as int, j as int);
            assert(sub.last() == s@[j - 1]);
            assert(sub.drop_last() =~= s@.subrange(i as int, j - 1));
        }
        j -= 1;
    }
    proof {
        let sub = s@.subrange(i as int, j as int);
        if j > i {
            assert(sub.last() == s@[j - 1]);
        }
        assert(rtrim(sub) == sub);
    }
    let r = st.substring_char(i, j);
    r.to_owned()
}

/// Mathematical model of the parser's state between two events.
#[verifier::ext_equal]
pub struct StateSpec {
    /// The catalog display name gathered so far.
    pub name: Seq<char>,
    /// The finalized entries, in document order.
    pub games: Seq<GameSpec>,
    /// The entry under construction, while inside an entry's scope.
    pub current: Option<GameSpec>,
    /// Whether the parser stands inside the header's name node.
    pub in_header_name: bool,
    /// Whether that node has not yet contributed a piece of text: its first
    /// piece replaces the name gathered so far, later pieces extend it.
    pub header_fresh: bool,
}

/// The state a parse starts from: an empty catalog, no entry under
/// construction, outside the header name node.
pub open spec fn init_state() -> StateSpec {
    StateSpec {
        name: Seq::empty(),
        games: Seq::empty(),
        current: None,
        in_header_name: false,
        header_fresh: false,
    }
}

/// Appends a file record, built from the tag's attributes, to the entry under
/// construction; without one, the tag is ignored.
pub open spec fn file_step(s: StateSpec, attrs: Seq<XmlAttr>) -> StateSpec {
    match s.current {
        Some(g) => StateSpec {
            current: Some(
                GameSpec {
                    name: g.name,
                    roms: g.roms.push(
                        RomSpec {
                            name: attr_lookup(attrs, name_elem()),
                            sha1: attr_lookup(attrs, sha1_attr()),
                        },
                    ),
                },
            ),
            ..s
        },
        None => s,
    }
}

/// The effect of an opening tag.
pub open spec fn start_step(s: StateSpec, name: Seq<char>, attrs: Seq<XmlAttr>) -> StateSpec {
    if name == game_elem() {
        StateSpec {
            current: Some(GameSpec { name: attr_lookup(attrs, name_elem()), roms: Seq::empty() }),
            ..s
        }
    } else if name == rom_elem() {
        file_step(s, attrs)
    } else if name == name_elem() && s.current is None {
        StateSpec { in_header_name: true, header_fresh: true, ..s }
    } else {
        s
    }
}

/// The effect of a closing tag.
pub open spec fn end_step(s: StateSpec, name: Seq<char>) -> StateSpec {
    if name == game_elem() {
        match s.current {
            Some(g) => StateSpec { games: s.games.push(g), current: None, ..s },
            None => s,
        }
    } else if name == name_elem() {
        StateSpec {
            name: if s.in_header_name {
                trimmed(s.name)
            } else {
                s.name
            },
            in_header_name: false,
            header_fresh: false,
            ..s
        }
    } else {
        s
    }
}

/// The effect of character data.
pub open spec fn text_step(s: StateSpec, t: Seq<char>) -> StateSpec {
    if s.in_header_name {
        StateSpec {
            name: if s.header_fresh {
                t
            } else {
                s.name + t
            },
            header_fresh: false,
            ..s
        }
    } else {
        s
    }
}

/// The effect of one event on the parser's state; `None` when the event ends
/// the parse with an error (an unresolvable reference in the header name).
pub open spec fn step_spec(s: StateSpec, ev: XmlEvent) -> Option<StateSpec> {
    match ev {
        XmlEvent::Start(name, attrs) => Some(start_step(s, name@, attrs@)),
        XmlEvent::Empty(name, attrs) => Some(
            if name@ == rom_elem() {
                file_step(s, attrs@)
            } else {
                s
            },
        ),
        XmlEvent::Text(t) => Some(text_step(s, t@)),
        XmlEvent::Ref(r) => if s.in_header_name {
            match r {
                Some(t) => Some(text_step(s, t@)),
                None => None,
            }
        } else {
            Some(s)
        },
        XmlEvent::End(name) => Some(end_step(s, name@)),
        XmlEvent::Eof => Some(s),
        XmlEvent::Other => Some(s),
    }
}

/// The models of an optional game under construction.
pub open spec fn current_view(current: Option<Game>) -> Option<GameSpec> {
    match current {
        Some(g) => Some(g@),
        None => None,
    }
}

/// The parser's state between two events.
pub struct ParseState {
    pub name: String,
    pub games: Vec<Game>,
    pub current: Option<Game>,
    pub in_header_name: bool,
    pub header_fresh: bool,
}

impl View for ParseState {
    type V = StateSpec;

    open spec fn view(&self) -> StateSpec {
        StateSpec {
            name: self.name@,
            games: games_view(self.games@),
            current: current_view(self.current),
            in_header_name: self.in_header_name,
            header_fresh: self.header_fresh,
        }
    }
}

impl ParseState {
    /// The state a parse starts from.
    pub fn new() -> (r: ParseState)
        ensures
            r@ == init_state(),
    {
        let r = ParseState {
            name: String::new(),
            games: Vec::new(),
            current: None,
            in_header_name: false,
            header_fresh: false,
        };
        proof {
            assert(r@ =~= init_state());
        }
        r
    }

    /// Appends a file record built from `attrs` to the entry under
    /// construction, if one exists.
    fn add_file(&mut self, attrs: &Vec<XmlAttr>)
        ensures
            final(self)@ == file_step(old(self)@, attrs@),
    {
        let rom_name = find_attr(attrs, "name");
        let rom_sha1 = find_attr(attrs, "sha1");
        match self.current.take() {
            Some(mut g) => {
                g.roms.push(Rom { name: rom_name, sha1: rom_sha1 });
                proof {
                    assert(roms_view(g.roms@) =~= file_step(old(self)@, attrs@).current->0.roms);
                }
                self.current = Some(g);
                proof {
                    assert(self@ =~= file_step(old(self)@, attrs@));
                }
            },
            None => {
                proof {
                    assert(self@ =~= file_step(old(self)@, attrs@));
                }
            },
        }
    }

    /// Folds one piece of the header name node's character data into the
    /// name: the node's first piece replaces what an earlier node set, later
    /// pieces extend it. Outside the node the piece is ignored.
    fn push_header_text(&mut self, t: &String)
        ensures
            final(self)@ == text_step(old(self)@, t@),
    {
        if self.in_header_name {
            if self.header_fresh {
                self.name = t.clone();
                self.header_fresh = false;
            } else {
                self.name.append(t.as_str());
            }
        }
        proof {
            assert(self@ =~= text_step(old(self)@, t@));
        }
    }

    /// Folds one event into the state.
    pub fn step(&mut self, ev: &XmlEvent) -> (r: Result<(), DatError>)
        ensures
            match step_spec(old(self)@, *ev) {
                Some(s2) => r is Ok && final(self)@ == s2,
                None => r is Err && (r matches Err(e) && e is HeaderText) && final(self)@ == old(self)@,
            },
    {
        match ev {
            XmlEvent::Start(name, attrs) => {
                if str_eq(name, "game") {
                    let game_name = find_attr(attrs, "name");
                    self.current = Some(Game { name: game_name, roms: Vec::new() });
                    proof {
                        assert(roms_view(Seq::<Rom>::empty()) =~= Seq::<RomSpec>::empty());
                        assert(self@ =~= start_step(old(self)@, name@, attrs@));
                    }
                } else if str_eq(name, "rom") {
                    self.add_file(attrs);
                } else if str_eq(name, "name") {
                    if self.current.is_none() {
                        self.in_header_name = true;
                        self.header_fresh = true;
                    }
                    proof {
                        assert(self@ =~= start_step(old(self)@, name@, attrs@));
                    }
                } else {
                    proof {
                        assert(self@ =~= start_step(old(self)@, name@, attrs@));
                    }
                }
                Ok(())
            },
            XmlEvent::Empty(name, attrs) => {
                if str_eq(name, "rom") {
                    self.add_file(attrs);
                }
                Ok(())
            },
            XmlEvent::Text(t) => {
                self.push_header_text(t);
                Ok(())
            },
            XmlEvent::Ref(r) => {
                if self.in_header_name {
                    match r {
                        Some(t) => {
                            self.push_header_text(t);
                            Ok(())
                        },
                        None => Err(DatError::HeaderText),
                    }
                } else {
                    Ok(())
                }
            },
            XmlEvent::End(name) => {
                if str_eq(name, "game") {
                    match self.current.take() {
                        Some(g) => {
                            self.games.push(g);
                            proof {
                                assert(games_view(self.games@) =~= games_view(old(self).games@).push(old(self).current->0@));
                                assert(self@ =~= end_step(old(self)@, name@));
                            }
                        },
                        None => {
                            proof {
                                assert(self@ =~= end_step(old(self)@, name@));
                            }
                        },
                    }
                } else if str_eq(name, "name") {
                    if self.in_header_name {
                        self.name = trim_string(&self.name);
                    }
                    self.in_header_name = false;
                    self.header_fresh = false;
                    proof {
                        assert(self@ =~= end_step(old(self)@, name@));
                    }
                } else {
                    proof {
                        assert(self@ =~= end_step(old(self)@, name@));
                    }
                }
                Ok(())
            },
            XmlEvent::Eof => Ok(()),
            XmlEvent::Other => Ok(()),
        }
    }

    /// The catalog built so far.
    pub fn finish(self) -> (r: DAT)
        ensures
            r@ == (DatSpec { name: self@.name, games: self@.games }),
    {
        DAT { name: self.name, games: self.games }
    }
}

/// Folds a sequence of events into a state, stopping at the first
/// end-of-document event; `None` when a step fails.
pub open spec fn run_spec(s: StateSpec, evs: Seq<XmlEvent>) -> Option<StateSpec>
    decreases evs.len(),
{
    if evs.len() == 0 || evs[0] is Eof {
        Some(s)
    } else {
        match step_spec(s, evs[0]) {
            Some(s2) => run_spec(s2, evs.skip(1)),
            None => None,
        }
    }
}

/// The catalog a finished state denotes.
pub open spec fn catalog_of(s: StateSpec) -> DatSpec {
    DatSpec { name: s.name, games: s.games }
}

/// The catalog a sequence of events denotes, from the initial state; `None`
/// when the parse fails.
pub open spec fn parse_spec(evs: Seq<XmlEvent>) -> Option<DatSpec> {
    match run_spec(init_state(), evs) {
        Some(s) => Some(catalog_of(s)),
        None => None,
    }
}

/// Whether no event of the sequence ends the document.
pub open spec fn no_eof(evs: Seq<XmlEvent>) -> bool {
    forall|i: int| 0 <= i < evs.len() ==> !((#[trigger] evs[i]) is Eof)
}

/// Extending a successful fold by one event folds that event into the final
/// state (an end-of-document event leaves it as it stands).
pub proof fn lemma_run_snoc(s0: StateSpec, evs: Seq<XmlEvent>, ev: XmlEvent)
    requires
        no_eof(evs),
        run_spec(s0, evs) is Some,
    ensures
        run_spec(s0, evs.push(ev)) == (if ev is Eof {
            run_spec(s0, evs)
        } else {
            step_spec(run_spec(s0, evs)->0, ev)
        }),
    decreases evs.len(),
{
    let evs1 = evs.push(ev);
    if evs.len() == 0 {
        assert(evs1[0] == ev);
        assert(run_spec(s0, evs) == Some(s0));
        if !(ev is Eof) {
            assert(evs1.skip(1) =~= Seq::<XmlEvent>::empty());
            match step_spec(s0, ev) {
                Some(s2) => {
                    assert(run_spec(s0, evs1) == run_spec(s2, evs1.skip(1)));
                    assert(run_spec(s2, evs1.skip(1)) == Some(s2));
                },
                None => {
                    assert(run_spec(s0, evs1) is None);
                },
            }
        }
    } else {
        assert(evs1[0] == evs[0]);
        assert(!(evs[0] is Eof));
        let s2 = step_spec(s0, evs[0])->0;
        assert(step_spec(s0, evs[0]) == Some(s2));
        assert(run_spec(s0, evs) == run_spec(s2, evs.skip(1)));
        assert(run_spec(s0, evs1) == run_spec(s2, evs1.skip(1)));
        assert(evs1.skip(1) =~= evs.skip(1).push(ev));
        assert(no_eof(evs.skip(1))) by {
            assert(forall|i: int|
                0 <= i < evs.skip(1).len() ==> evs.skip(1)[i] == evs[i + 1]);
        }
        lemma_run_snoc(s2, evs.skip(1), ev);
    }
}

/// Parses a complete sequence of events into a catalog. The result is pinned
/// exactly by `parse_spec`: the parse succeeds unless an unresolvable
/// reference stands inside the header name, and the catalog is the fold of
/// the events up to the first end-of-document event.
pub fn parse_events(events: &Vec<XmlEvent>) -> (r: Result<DAT, DatError>)
    ensures
        match parse_spec(events@) {
            Some(d) => r matches Ok(v) && v@ == d,
            None => r matches Err(e) && e is HeaderText,
        },
{
    let mut st = ParseState::new();
    proof {
        assert(events@.skip(0) =~= events@);
    }
    let n: usize = events.len();
    let mut i: usize = 0;
    while i < n
        invariant
            n == events@.len(),
            i <= n,
            run_spec(init_state(), events@) == run_spec(st@, events@.skip(i as int)),
        decreases n - i,
    {
        let ghost rest = events@.skip(i as int);
        proof {
            assert(rest[0] == events@[i as int]);
            assert(rest.skip(1) =~= events@.skip(i + 1 as int));
        }
        let ev = &events[i];
        if matches!(ev, XmlEvent::Eof) {
            return Ok(st.finish());
        }
        match st.step(ev) {
            Ok(()) => {},
            Err(e) => {
                return Err(e);
            },
        }
        i += 1;
    }
    proof {
        assert(events@.skip(n as int) =~= Seq::<XmlEvent>::empty());
    }
    Ok(st.finish())
}

/// The first `n` stream events all yield values and none ends the document.
proof fn lemma_live_prefix_events(input: Seq<u8>, n: nat)
    requires
        live_prefix(input, n),
    ensures
        stream_events(input, n).len() == n,
        no_eof(stream_events(input, n)),
    decreases n,
{
    if n > 0 {
        assert(live_prefix(input, (n - 1) as nat));
        lemma_live_prefix_events(input, (n - 1) as nat);
        let evs = stream_events(input, n);
        assert(evs.last() == stream_outcome(input, n - 1)->0);
        assert(forall|i: int|
            0 <= i < n - 1 ==> evs[i] == stream_events(input, (n - 1) as nat)[i]);
    }
}

/// Parses one catalog file's bytes into a catalog, in a single forward pass
/// over the XML layer's event stream, which `stream_outcome` names as a
/// function of the bytes. The catalog is exactly the fold of the stream's
/// events up to its first end-of-document event; a header-text error comes
/// exactly of a fold that fails, and a syntax error of a read that fails (or
/// of a stream still unfinished after one read per input byte, which a real
/// stream never is).
pub fn parse_dat(input: &[u8]) -> (r: Result<DAT, DatError>)
    ensures
        r matches Ok(d) ==> exists|n: nat|
            #[trigger] live_prefix(input@, n) && stream_outcome(input@, n as int) == Some(
                XmlEvent::Eof,
            ) && parse_spec(stream_events(input@, n)) == Some(d@),
        (r matches Err(e) && e is HeaderText) ==> exists|n: nat|
            #[trigger] live_prefix(input@, n) && stream_outcome(input@, n as int) is Some
                && parse_spec(stream_events(input@, n + 1)) is None,
        (r matches Err(e) && e is Syntax) ==> exists|n: nat|
            #[trigger] live_prefix(input@, n) && (stream_outcome(input@, n as int) is None || n
                == input@.len() + 1),
{
    let mut stream = open_stream(input);
    let mut st = ParseState::new();
    // Every event but the final end-of-document one consumes at least one
    // input byte, so the stream ends within this many reads.
    let mut fuel: u128 = input.len() as u128 + 1;
    loop
        invariant
            stream.input@ == input@,
            0 <= stream.pos@,
            stream.pos@ + fuel == input@.len() + 1,
            live_prefix(input@, stream.pos@ as nat),
            run_spec(init_state(), stream_events(input@, stream.pos@ as nat)) == Some(st@),
        decreases fuel,
    {
        let ghost k = stream.pos@ as nat;
        if fuel == 0 {
            proof {
                assert(k == input@.len() + 1);
                assert(live_prefix(input@, k));
            }
            return Err(DatError::Syntax("event stream did not end".to_owned()));
        }
        fuel = fuel - 1;
        let ghost evs = stream_events(input@, k);
        match stream_next(&mut stream) {
            Err(e) => {
                proof {
                    assert(live_prefix(input@, k) && stream_outcome(input@, k as int) is None);
                }
                return Err(DatError::Syntax(xml_error_text(&e)));
            },
            Ok(ev) => {
                proof {
                    lemma_live_prefix_events(input@, k);
                    lemma_run_snoc(init_state(), evs, ev);
                    assert(stream_events(input@, k + 1) == evs.push(ev));
                }
                if matches!(ev, XmlEvent::Eof) {
                    let d = st.finish();
                    proof {
                        assert(live_prefix(input@, k));
                        assert(parse_spec(evs) == Some(d@));
                    }
                    return Ok(d);
                }
                match st.step(&ev) {
                    Ok(()) => {
                        proof {
                            assert(live_prefix(input@, k + 1)) by {
                                assert(forall|j: int|
                                    0 <= j < k + 1 ==> ((#[trigger] stream_outcome(input@, j))
                                        matches Some(e2) && !(e2 is Eof))) by {
                                    assert(stream_outcome(input@, k as int) == Some(ev));
                                }
                            }
                        }
                    },
                    Err(e) => {
                        proof {
                            assert(live_prefix(input@, k));
                            assert(parse_spec(stream_events(input@, k + 1)) is None);
                        }
                        return Err(e);
                    },
                }
            },
        }
    }
}

} // verus!
