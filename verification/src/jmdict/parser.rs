//! JMDict_e XML parser.
//!
//! The XML uses entity references (`&v1;` → `verb (ichidan)`) defined
//! in the DOCTYPE. We *don't* want those expanded; we keep the entity
//! name as the POS code (e.g. `v1`), since that's what JMDict
//! consumers like Yomitan use. To avoid entity-resolution errors, the
//! DOCTYPE block is stripped before reading.
//!
//! quick-xml turns the text into events; the entry/sense state machine
//! over those events is this module's own.

use vstd::prelude::*;

use quick_xml::events::Event;
use quick_xml::reader::Reader;

use super::bundle::{Entry, EntryView, Sense, SenseView, entries_view, sense_view, senses_view};
use crate::text::{
    chars_of, find, find_from, find_from_exec, lemma_find_from_bounds, parse_i64,
    parse_i64_exec, sub_string, trim_range, trim_ws, Strip,
};
use crate::tokenize::jmdict_index::strs_view;

verus! {

/// One XML event, reduced to what the parser reads.
#[derive(Debug, Clone)]
pub enum XmlEvent {
    /// Start tag, by name.
    Start(String),
    /// End tag, by name.
    End(String),
    /// Character data.
    Text(String),
    /// A general entity reference `&name;`, by name.
    GeneralRef(String),
    /// Anything else (declarations, comments, CDATA, ...).
    Other,
}

/// An XML event as plain values.
pub enum XmlEventView {
    Start(Seq<char>),
    End(Seq<char>),
    Text(Seq<char>),
    GeneralRef(Seq<char>),
    Other,
}

pub open spec fn event_view(e: XmlEvent) -> XmlEventView {
    match e {
        XmlEvent::Start(n) => XmlEventView::Start(n@),
        XmlEvent::End(n) => XmlEventView::End(n@),
        XmlEvent::Text(t) => XmlEventView::Text(t@),
        XmlEvent::GeneralRef(r) => XmlEventView::GeneralRef(r@),
        XmlEvent::Other => XmlEventView::Other,
    }
}

pub open spec fn events_view(v: Seq<XmlEvent>) -> Seq<XmlEventView> {
    Seq::new(v.len(), |i: int| event_view(v[i]))
}

/// The events quick-xml's `Reader` yields for `body`, up to (not
/// including) `Eof`, when reading with trimmed text, expanded empty
/// elements and checked end names; `None` when it reports an error.
pub uninterp spec fn xml_events_of(body: Seq<char>) -> Option<Seq<XmlEventView>>;

#[verifier::external_type_specification]
#[verifier::external_body]
pub struct ExEvent<'a>(Event<'a>);

/// A quick-xml event as an `XmlEvent`, variant by variant.
#[verifier::external_body]
fn event_of(ev: Event) -> XmlEvent {
    match ev {
        Event::Start(e) => XmlEvent::Start(e.name().as_ref().to_owned()),
        Event::End(e) => XmlEvent::End(e.name().as_ref().to_owned()),
        Event::Text(t) => XmlEvent::Text(t.into_inner().into_owned()),
        Event::GeneralRef(g) => XmlEvent::GeneralRef(g.into_inner().into_owned()),
        _ => XmlEvent::Other,
    }
}

/// Runs quick-xml's `Reader::read_event` over `body` until `Eof`,
/// converting each event. The contract claims that the events are the
/// named `xml_events_of(body)`, and `Err` exactly when the reader fails;
/// the error message is left unsaid.
#[verifier::external_body]
fn xml_events(body: &str) -> (r: Result<Vec<XmlEvent>, String>)
    ensures
        match r {
            Ok(v) => xml_events_of(body@) == Some(events_view(v@)),
            Err(_) => xml_events_of(body@) is None,
        },
{
    let mut reader = Reader::from_str(body);
    reader.config_mut().trim_text(true);
    reader.config_mut().expand_empty_elements = true; // end names are checked by default
    let mut out = Vec::new();
    loop {
        match reader.read_event() {
            Err(e) => return Err(format!("xml at pos {}: {e}", reader.buffer_position())),
            Ok(Event::Eof) => return Ok(out),
            Ok(ev) => out.push(event_of(ev)),
        }
    }
}

/// Why a JMDict file could not be parsed.
#[derive(Debug)]
pub enum JmdictError {
    /// The XML reader rejected the text.
    Xml(String),
}

// ------------------------------------------------------------ the model

pub open spec fn n_entry() -> Seq<char> {
    seq!['e', 'n', 't', 'r', 'y']
}

pub open spec fn n_k_ele() -> Seq<char> {
    seq!['k', '_', 'e', 'l', 'e']
}

pub open spec fn n_r_ele() -> Seq<char> {
    seq!['r', '_', 'e', 'l', 'e']
}

pub open spec fn n_sense() -> Seq<char> {
    seq!['s', 'e', 'n', 's', 'e']
}

pub open spec fn n_gloss() -> Seq<char> {
    seq!['g', 'l', 'o', 's', 's']
}

pub open spec fn n_keb() -> Seq<char> {
    seq!['k', 'e', 'b']
}

pub open spec fn n_reb() -> Seq<char> {
    seq!['r', 'e', 'b']
}

pub open spec fn n_pos() -> Seq<char> {
    seq!['p', 'o', 's']
}

/// Whether a name is one of the elements whose text is collected.
pub open spec fn is_text_elem(n: Seq<char>) -> bool {
    n == n_keb() || n == n_reb() || n == n_pos()
}

/// Where the parser is, as plain values.
pub struct ParseState {
    pub seq: Option<int>,
    pub kanji: Seq<Seq<char>>,
    pub readings: Seq<Seq<char>>,
    pub senses: Seq<SenseView>,
    pub rules_seen: Seq<Seq<char>>,
    pub in_kanji: bool,
    pub in_reading: bool,
    pub in_sense: bool,
    pub collecting_text: bool,
    pub collecting_gloss: bool,
    pub cur_pos: Seq<Seq<char>>,
    pub cur_glosses: Seq<Seq<char>>,
}

pub open spec fn initial_state() -> ParseState {
    ParseState {
        seq: None,
        kanji: seq![],
        readings: seq![],
        senses: seq![],
        rules_seen: seq![],
        in_kanji: false,
        in_reading: false,
        in_sense: false,
        collecting_text: false,
        collecting_gloss: false,
        cur_pos: seq![],
        cur_glosses: seq![],
    }
}

/// The state after character data `t`.
pub open spec fn on_text(st: ParseState, t: Seq<char>) -> ParseState {
    if !(st.collecting_text || st.collecting_gloss) && st.seq is Some {
        st
    } else if st.seq is None && parse_i64(trim_ws(t)) is Some {
        ParseState { seq: Some(parse_i64(trim_ws(t)).unwrap()), ..st }
    } else if st.collecting_gloss {
        ParseState { cur_glosses: st.cur_glosses.push(t), ..st }
    } else if st.collecting_text && st.in_kanji {
        ParseState { kanji: st.kanji.push(t), ..st }
    } else if st.collecting_text && st.in_reading {
        ParseState { readings: st.readings.push(t), ..st }
    } else {
        st
    }
}

/// The state and entries after one event.
pub open spec fn step(st: ParseState, es: Seq<EntryView>, ev: XmlEventView) -> (ParseState, Seq<EntryView>) {
    match ev {
        XmlEventView::Start(n) => if n == n_entry() {
            (initial_state(), es)
        } else if n == n_k_ele() {
            (ParseState { in_kanji: true, ..st }, es)
        } else if n == n_r_ele() {
            (ParseState { in_reading: true, ..st }, es)
        } else if n == n_sense() {
            (ParseState { in_sense: true, cur_pos: seq![], cur_glosses: seq![], ..st }, es)
        } else if n == n_gloss() {
            (ParseState { collecting_gloss: true, ..st }, es)
        } else if is_text_elem(n) {
            (ParseState { collecting_text: true, ..st }, es)
        } else {
            (st, es)
        },
        XmlEventView::End(n) => if n == n_entry() {
            match st.seq {
                Some(s) => (
                    ParseState { seq: None, kanji: seq![], readings: seq![], senses: seq![], rules_seen: seq![], ..st },
                    es.push(
                        EntryView {
                            seq: s,
                            kanji: st.kanji,
                            readings: st.readings,
                            senses: st.senses,
                            rules: st.rules_seen,
                            priority: 0,
                        },
                    ),
                ),
                None => (st, es),
            }
        } else if n == n_k_ele() {
            (ParseState { in_kanji: false, ..st }, es)
        } else if n == n_r_ele() {
            (ParseState { in_reading: false, ..st }, es)
        } else if n == n_sense() {
            (
                ParseState {
                    senses: st.senses.push(SenseView { pos: st.cur_pos, glosses: st.cur_glosses }),
                    cur_pos: seq![],
                    cur_glosses: seq![],
                    in_sense: false,
                    ..st
                },
                es,
            )
        } else if n == n_gloss() {
            (ParseState { collecting_gloss: false, ..st }, es)
        } else if is_text_elem(n) {
            (ParseState { collecting_text: false, ..st }, es)
        } else {
            (st, es)
        },
        XmlEventView::Text(t) => (on_text(st, t), es),
        XmlEventView::GeneralRef(r) => if st.collecting_text && st.in_sense {
            (
                ParseState {
                    cur_pos: st.cur_pos.push(r),
                    rules_seen: if st.rules_seen.contains(r) {
                        st.rules_seen
                    } else {
                        st.rules_seen.push(r)
                    },
                    ..st
                },
                es,
            )
        } else {
            (st, es)
        },
        XmlEventView::Other => (st, es),
    }
}

/// State and entries after the events `evs`, from the initial state.
pub open spec fn run_events(evs: Seq<XmlEventView>) -> (ParseState, Seq<EntryView>)
    decreases evs.len(),
{
    if evs.len() == 0 {
        (initial_state(), seq![])
    } else {
        let (st, es) = run_events(evs.drop_last());
        step(st, es, evs.last())
    }
}

/// The entries an event stream describes: one per `<entry>` that has an
/// `ent_seq`, with its kanji, readings, senses (POS entity names and
/// glosses) and the distinct POS names in first-seen order as rules.
pub open spec fn entries_of(evs: Seq<XmlEventView>) -> Seq<EntryView> {
    run_events(evs).1
}

pub open spec fn doctype() -> Seq<char> {
    seq!['<', '!', 'D', 'O', 'C', 'T', 'Y', 'P', 'E']
}

/// `xml` without its `<!DOCTYPE ... ]>` (or `<!DOCTYPE ...>`) block.
pub open spec fn strip_doctype_spec(x: Seq<char>) -> Seq<char> {
    match find(x, doctype()) {
        None => x,
        Some(s) => match find_from(x, seq![']', '>'], s) {
            Some(e) => x.skip(e + 2),
            None => match find_from(x, seq!['>'], s) {
                Some(e) => x.skip(e + 1),
                None => x,
            },
        },
    }
}


// ----------------------------------------------------------- exec parts

struct State {
    seq: Option<i64>,
    kanji: Vec<String>,
    readings: Vec<String>,
    senses: Vec<Sense>,
    rules_seen: Vec<String>,
    in_kanji: bool,
    in_reading: bool,
    in_sense: bool,
    collecting_text: bool,
    collecting_gloss: bool,
    cur_pos: Vec<String>,
    cur_glosses: Vec<String>,
}

spec fn state_view(st: State) -> ParseState {
    ParseState {
        seq: match st.seq {
            Some(s) => Some(s as int),
            None => None,
        },
        kanji: strs_view(st.kanji@),
        readings: strs_view(st.readings@),
        senses: senses_view(st.senses@),
        rules_seen: strs_view(st.rules_seen@),
        in_kanji: st.in_kanji,
        in_reading: st.in_reading,
        in_sense: st.in_sense,
        collecting_text: st.collecting_text,
        collecting_gloss: st.collecting_gloss,
        cur_pos: strs_view(st.cur_pos@),
        cur_glosses: strs_view(st.cur_glosses@),
    }
}

fn fresh_state() -> (st: State)
    ensures
        state_view(st) == initial_state(),
{
    let st = State {
        seq: None,
        kanji: Vec::new(),
        readings: Vec::new(),
        senses: Vec::new(),
        rules_seen: Vec::new(),
        in_kanji: false,
        in_reading: false,
        in_sense: false,
        collecting_text: false,
        collecting_gloss: false,
        cur_pos: Vec::new(),
        cur_glosses: Vec::new(),
    };
    assert(strs_view(st.kanji@) =~= seq![]);
    assert(strs_view(st.readings@) =~= seq![]);
    assert(senses_view(st.senses@) =~= seq![]);
    assert(strs_view(st.rules_seen@) =~= seq![]);
    assert(strs_view(st.cur_pos@) =~= seq![]);
    assert(strs_view(st.cur_glosses@) =~= seq![]);
    st
}

/// Moves the contents out of `v`, leaving it empty.
fn take_vec<T>(v: &mut Vec<T>) -> (r: Vec<T>)
    ensures
        r@ == old(v)@,
        final(v)@ == Seq::<T>::empty(),
{
    let mut out: Vec<T> = Vec::new();
    std::mem::swap(&mut out, v);
    out
}

fn push_string(v: &mut Vec<String>, s: String)
    ensures
        strs_view(final(v)@) == strs_view(old(v)@).push(s@),
{
    v.push(s);
    assert(strs_view(v@) =~= strs_view(old(v)@).push(s@));
}

fn contains_string(v: &Vec<String>, s: &str) -> (r: bool)
    ensures
        r == strs_view(v@).contains(s@),
{
    let sc = chars_of(s);
    let mut i: usize = 0;
    while i < v.len()
        invariant
            i <= v@.len(),
            sc@ == s@,
            forall|t: int| 0 <= t < i ==> strs_view(v@)[t] != s@,
        decreases v@.len() - i,
    {
        let vc = chars_of(v[i].as_str());
        if crate::text::eq_chars(vc.as_slice(), sc.as_slice()) {
            assert(strs_view(v@)[i as int] == s@);
            return true;
        }
        i = i + 1;
    }
    false
}

fn name_is(n: &String, lit: &[char]) -> (r: bool)
    ensures
        r == (n@ == lit@),
{
    crate::text::str_is(n.as_str(), lit)
}

fn on_text_exec(st: &mut State, t: &String)
    ensures
        state_view(*final(st)) == on_text(state_view(*old(st)), t@),
{
    if !(st.collecting_text || st.collecting_gloss) && st.seq.is_some() {
        return;
    }
    if st.seq.is_none() {
        let tc = chars_of(t.as_str());
        let (a, b) = trim_range(tc.as_slice(), 0, tc.len(), Strip::Whitespace);
        assert(tc@.subrange(0, tc@.len() as int) =~= tc@);
        match parse_i64_exec(tc.as_slice(), a, b) {
            Some(n) => {
                st.seq = Some(n);
                return;
            },
            None => {},
        }
    }
    if st.collecting_gloss {
        push_string(&mut st.cur_glosses, t.clone());
    } else if st.collecting_text && st.in_kanji {
        push_string(&mut st.kanji, t.clone());
    } else if st.collecting_text && st.in_reading {
        push_string(&mut st.readings, t.clone());
    }
}

/// One event at run time.
fn step_exec(st: &mut State, es: &mut Vec<Entry>, ev: &XmlEvent)
    ensures
        (state_view(*final(st)), entries_view(final(es)@)) == step(
            state_view(*old(st)),
            entries_view(old(es)@),
            event_view(*ev),
        ),
{
    let entry: &[char] = &['e', 'n', 't', 'r', 'y'];
    let k_ele: &[char] = &['k', '_', 'e', 'l', 'e'];
    let r_ele: &[char] = &['r', '_', 'e', 'l', 'e'];
    let sense: &[char] = &['s', 'e', 'n', 's', 'e'];
    let gloss: &[char] = &['g', 'l', 'o', 's', 's'];
    let keb: &[char] = &['k', 'e', 'b'];
    let reb: &[char] = &['r', 'e', 'b'];
    let pos: &[char] = &['p', 'o', 's'];
    match ev {
        XmlEvent::Start(n) => {
            if name_is(n, entry) {
                *st = fresh_state();
            } else if name_is(n, k_ele) {
                st.in_kanji = true;
            } else if name_is(n, r_ele) {
                st.in_reading = true;
            } else if name_is(n, sense) {
                st.in_sense = true;
                st.cur_pos = Vec::new();
                st.cur_glosses = Vec::new();
                assert(strs_view(st.cur_pos@) =~= seq![]);
                assert(strs_view(st.cur_glosses@) =~= seq![]);
            } else if name_is(n, gloss) {
                st.collecting_gloss = true;
            } else if name_is(n, keb) || name_is(n, reb) || name_is(n, pos) {
                st.collecting_text = true;
            }
        },
        XmlEvent::End(n) => {
            if name_is(n, entry) {
                match st.seq {
                    Some(s) => {
                        let kanji = take_vec(&mut st.kanji);
                        let readings = take_vec(&mut st.readings);
                        let senses = take_vec(&mut st.senses);
                        let rules = take_vec(&mut st.rules_seen);
                        st.seq = None;
                        let e = Entry { seq: s, kanji, readings, senses, rules, priority: 0 };
                        let ghost before = entries_view(es@);
                        es.push(e);
                        assert(entries_view(es@) =~= before.push(super::bundle::entry_view(e)));
                        assert(strs_view(st.kanji@) =~= seq![]);
                        assert(strs_view(st.readings@) =~= seq![]);
                        assert(senses_view(st.senses@) =~= seq![]);
                        assert(strs_view(st.rules_seen@) =~= seq![]);
                    },
                    None => {},
                }
            } else if name_is(n, k_ele) {
                st.in_kanji = false;
            } else if name_is(n, r_ele) {
                st.in_reading = false;
            } else if name_is(n, sense) {
                let p = take_vec(&mut st.cur_pos);
                let g = take_vec(&mut st.cur_glosses);
                let sv = Sense { pos: p, glosses: g };
                let ghost before = senses_view(st.senses@);
                st.senses.push(sv);
                assert(senses_view(st.senses@) =~= before.push(sense_view(sv)));
                st.in_sense = false;
                assert(strs_view(st.cur_pos@) =~= seq![]);
                assert(strs_view(st.cur_glosses@) =~= seq![]);
            } else if name_is(n, gloss) {
                st.collecting_gloss = false;
            } else if name_is(n, keb) || name_is(n, reb) || name_is(n, pos) {
                st.collecting_text = false;
            }
        },
        XmlEvent::Text(t) => {
            on_text_exec(st, t);
        },
        XmlEvent::GeneralRef(r) => {
            if st.collecting_text && st.in_sense {
                push_string(&mut st.cur_pos, r.clone());
                if !contains_string(&st.rules_seen, r.as_str()) {
                    push_string(&mut st.rules_seen, r.clone());
                }
            }
        },
        XmlEvent::Other => {},
    }
}

/// The entries an event stream describes (see `entries_of`).
pub fn parse_events(events: &Vec<XmlEvent>) -> (r: Vec<Entry>)
    ensures
        entries_view(r@) == entries_of(events_view(events@)),
{
    let mut st = fresh_state();
    let mut es: Vec<Entry> = Vec::new();
    let mut i: usize = 0;
    assert(events_view(events@).take(0) =~= seq![]);
    assert(entries_view(es@) =~= seq![]);
    while i < events.len()
        invariant
            i <= events@.len(),
            (state_view(st), entries_view(es@)) == run_events(events_view(events@).take(i as int)),
        decreases events@.len() - i,
    {
        step_exec(&mut st, &mut es, &events[i]);
        proof {
            let t = events_view(events@).take(i + 1);
            assert(t.drop_last() =~= events_view(events@).take(i as int));
            assert(t.last() == event_view(events@[i as int]));
        }
        i = i + 1;
    }
    assert(events_view(events@).take(i as int) =~= events_view(events@));
    es
}

/// `xml` without its DOCTYPE block.
pub fn strip_doctype(xml: &str) -> (r: String)
    ensures
        r@ == strip_doctype_spec(xml@),
{
    let x = chars_of(xml);
    let dt: Vec<char> = vec!['<', '!', 'D', 'O', 'C', 'T', 'Y', 'P', 'E'];
    assert(dt@ =~= doctype());
    let close: Vec<char> = vec![']', '>'];
    assert(close@ =~= seq![']', '>']);
    let gt: Vec<char> = vec!['>'];
    assert(gt@ =~= seq!['>']);
    let n = x.len();
    assert(x@.subrange(0, n as int) =~= x@);
    match find_from_exec(x.as_slice(), dt.as_slice(), 0) {
        None => sub_string(x.as_slice(), 0, n),
        Some(s) => {
            match find_from_exec(x.as_slice(), close.as_slice(), s) {
                Some(e) => {
                    proof {
                        lemma_find_from_bounds(x@, close@, s as int);
                    }
                    assert(x@.subrange(e + 2, n as int) =~= x@.skip(e + 2));
                    sub_string(x.as_slice(), e + 2, n)
                },
                None => match find_from_exec(x.as_slice(), gt.as_slice(), s) {
                    Some(e) => {
                        proof {
                            lemma_find_from_bounds(x@, gt@, s as int);
                        }
                        assert(x@.subrange(e + 1, n as int) =~= x@.skip(e + 1));
                        sub_string(x.as_slice(), e + 1, n)
                    },
                    None => sub_string(x.as_slice(), 0, n),
                },
            }
        },
    }
}

/// Parse the JMDict_e XML body into entries. `Err` exactly when the XML
/// reader rejects the text after its DOCTYPE block.
pub fn parse(xml: &str) -> (r: Result<Vec<Entry>, JmdictError>)
    ensures
        match r {
            Ok(es) => exists|evs: Seq<XmlEventView>|
                xml_events_of(strip_doctype_spec(xml@)) == Some(evs) && entries_view(es@)
                    == entries_of(evs),
            Err(_) => xml_events_of(strip_doctype_spec(xml@)) is None,
        },
{
    let body = strip_doctype(xml);
    match xml_events(body.as_str()) {
        Err(msg) => Err(JmdictError::Xml(msg)),
        Ok(events) => {
            let es = parse_events(&events);
            Ok(es)
        },
    }
}


/// No name occurs twice in `s`.
pub open spec fn no_repeats(s: Seq<Seq<char>>) -> bool {
    forall|a: int, b: int| 0 <= a < b < s.len() ==> #[trigger] s[a] != #[trigger] s[b]
}

proof fn lemma_run_events(evs: Seq<XmlEventView>)
    ensures
        no_repeats(run_events(evs).0.rules_seen),
        forall|k: int| 0 <= k < run_events(evs).1.len() ==> no_repeats((#[trigger] run_events(evs).1[k]).rules),
        evs.len() > 0 ==> run_events(evs.drop_last()).1.len() <= run_events(evs).1.len()
            && run_events(evs).1.take(run_events(evs.drop_last()).1.len() as int) == run_events(evs.drop_last()).1,
    decreases evs.len(),
{
    if evs.len() > 0 {
        let init = evs.drop_last();
        lemma_run_events(init);
        let (st, es) = run_events(init);
        let (st2, es2) = step(st, es, evs.last());
        assert(es2.take(es.len() as int) =~= es) by {
            assert(es2.len() >= es.len());
            assert forall|k: int| 0 <= k < es.len() implies es2[k] == es[k] by {}
        }
        match evs.last() {
            XmlEventView::GeneralRef(r) => {
                if st.collecting_text && st.in_sense && !st.rules_seen.contains(r) {
                    let rs = st.rules_seen.push(r);
                    assert forall|a: int, b: int| 0 <= a < b < rs.len() implies #[trigger] rs[a] != #[trigger] rs[b] by {
                        if b == st.rules_seen.len() {
                            assert(rs[a] == st.rules_seen[a]);
                        } else {
                            assert(rs[a] == st.rules_seen[a] && rs[b] == st.rules_seen[b]);
                        }
                    }
                }
            },
            XmlEventView::End(n) => {
                if n == n_entry() && st.seq is Some {
                    assert forall|k: int| 0 <= k < es2.len() implies no_repeats((#[trigger] es2[k]).rules) by {
                        if k < es.len() {
                            assert(es2[k] == es[k]);
                        }
                    }
                    assert(no_repeats(Seq::<Seq<char>>::empty()));
                }
            },
            _ => {},
        }
    } else {
        assert(no_repeats(Seq::<Seq<char>>::empty()));
    }
}

/// The entries of an event stream come in stream order: reading more
/// events only appends entries, never changes or drops one already
/// read; and no entry lists a POS name twice among its rules.
pub proof fn entries_in_stream_order(evs: Seq<XmlEventView>, i: int)
    requires
        0 <= i <= evs.len(),
    ensures
        entries_of(evs.take(i)).len() <= entries_of(evs).len(),
        entries_of(evs).take(entries_of(evs.take(i)).len() as int) == entries_of(evs.take(i)),
        forall|k: int| 0 <= k < entries_of(evs).len() ==> no_repeats((#[trigger] entries_of(evs)[k]).rules),
    decreases evs.len() - i,
{
    lemma_run_events(evs);
    if i < evs.len() {
        entries_in_stream_order(evs, i + 1);
        let t = evs.take(i + 1);
        lemma_run_events(t);
        assert(t.drop_last() =~= evs.take(i));
        let a = entries_of(evs.take(i));
        let b = entries_of(t);
        let c = entries_of(evs);
        assert(c.take(a.len() as int) =~= c.take(b.len() as int).take(a.len() as int));
    } else {
        assert(evs.take(i) =~= evs);
        assert(entries_of(evs).take(entries_of(evs).len() as int) =~= entries_of(evs));
    }
}


// ------------------------------------------ entries of a JMdict document

/// The parser state and entries after `evs`, starting from `p`.
pub open spec fn run_on(p: (ParseState, Seq<EntryView>), evs: Seq<XmlEventView>) -> (ParseState, Seq<EntryView>)
    decreases evs.len(),
{
    if evs.len() == 0 {
        p
    } else {
        let (st, es) = run_on(p, evs.drop_last());
        step(st, es, evs.last())
    }
}

proof fn lemma_run_on_concat(p: (ParseState, Seq<EntryView>), a: Seq<XmlEventView>, b: Seq<XmlEventView>)
    ensures
        run_on(p, a + b) == run_on(run_on(p, a), b),
    decreases b.len(),
{
    if b.len() == 0 {
        assert(a + b =~= a);
    } else {
        assert((a + b).drop_last() =~= a + b.drop_last());
        assert((a + b).last() == b.last());
        lemma_run_on_concat(p, a, b.drop_last());
    }
}

proof fn lemma_run_events_on(evs: Seq<XmlEventView>)
    ensures
        run_events(evs) == run_on((initial_state(), seq![]), evs),
    decreases evs.len(),
{
    if evs.len() > 0 {
        lemma_run_events_on(evs.drop_last());
    }
}

/// The element `<name>t</name>` as events.
pub open spec fn text_element(name: Seq<char>, t: Seq<char>) -> Seq<XmlEventView> {
    seq![XmlEventView::Start(name), XmlEventView::Text(t), XmlEventView::End(name)]
}

pub open spec fn n_ent_seq() -> Seq<char> {
    seq!['e', 'n', 't', '_', 's', 'e', 'q']
}

pub open spec fn n_root() -> Seq<char> {
    seq!['J', 'M', 'd', 'i', 'c', 't']
}

/// `<k_ele><keb>k</keb></k_ele>` for each kanji form `k`, in order.
pub open spec fn kanji_events(ks: Seq<Seq<char>>) -> Seq<XmlEventView>
    decreases ks.len(),
{
    if ks.len() == 0 {
        seq![]
    } else {
        kanji_events(ks.drop_last()) + (seq![XmlEventView::Start(n_k_ele())] + text_element(n_keb(), ks.last())
            + seq![XmlEventView::End(n_k_ele())])
    }
}

/// `<r_ele><reb>r</reb></r_ele>` for each reading `r`, in order.
pub open spec fn reading_events(rs: Seq<Seq<char>>) -> Seq<XmlEventView>
    decreases rs.len(),
{
    if rs.len() == 0 {
        seq![]
    } else {
        reading_events(rs.drop_last()) + (seq![XmlEventView::Start(n_r_ele())] + text_element(n_reb(), rs.last())
            + seq![XmlEventView::End(n_r_ele())])
    }
}

/// `<gloss>g</gloss>` for each gloss `g`, in order.
pub open spec fn gloss_events(gs: Seq<Seq<char>>) -> Seq<XmlEventView>
    decreases gs.len(),
{
    if gs.len() == 0 {
        seq![]
    } else {
        gloss_events(gs.drop_last()) + text_element(n_gloss(), gs.last())
    }
}

/// `<pos>&p;</pos>` for each POS entity name `p`, in order.
pub open spec fn pos_events(ps: Seq<Seq<char>>) -> Seq<XmlEventView>
    decreases ps.len(),
{
    if ps.len() == 0 {
        seq![]
    } else {
        pos_events(ps.drop_last()) + seq![
            XmlEventView::Start(n_pos()),
            XmlEventView::GeneralRef(ps.last()),
            XmlEventView::End(n_pos()),
        ]
    }
}

/// One sense as written: its POS entity names and its glosses.
pub type SenseText = (Seq<Seq<char>>, Seq<Seq<char>>);

/// `<sense>` elements, in order, each with its `<pos>` then its
/// `<gloss>` elements.
pub open spec fn sense_events(ss: Seq<SenseText>) -> Seq<XmlEventView>
    decreases ss.len(),
{
    if ss.len() == 0 {
        seq![]
    } else {
        sense_events(ss.drop_last()) + (seq![XmlEventView::Start(n_sense())] + pos_events(ss.last().0)
            + gloss_events(ss.last().1) + seq![XmlEventView::End(n_sense())])
    }
}

/// `acc` followed by the names of `ps` it does not hold yet, in
/// first-seen order.
pub open spec fn add_new(acc: Seq<Seq<char>>, ps: Seq<Seq<char>>) -> Seq<Seq<char>>
    decreases ps.len(),
{
    if ps.len() == 0 {
        acc
    } else {
        let a = add_new(acc, ps.drop_last());
        if a.contains(ps.last()) {
            a
        } else {
            a.push(ps.last())
        }
    }
}

/// The distinct POS names of the senses `ss`, after those of `acc`, in
/// first-seen order.
pub open spec fn rules_from(acc: Seq<Seq<char>>, ss: Seq<SenseText>) -> Seq<Seq<char>>
    decreases ss.len(),
{
    if ss.len() == 0 {
        acc
    } else {
        add_new(rules_from(acc, ss.drop_last()), ss.last().0)
    }
}

/// An `<entry>` with number text `n`, kanji forms `ks`, readings `rs`
/// and senses holding the glosses `ss`.
pub open spec fn entry_events(n: Seq<char>, ks: Seq<Seq<char>>, rs: Seq<Seq<char>>, ss: Seq<SenseText>) -> Seq<
    XmlEventView,
> {
    seq![XmlEventView::Start(n_entry())] + text_element(n_ent_seq(), n) + kanji_events(ks) + reading_events(rs)
        + sense_events(ss) + seq![XmlEventView::End(n_entry())]
}

/// One JMdict entry as written: number text, kanji forms, readings and
/// senses.
pub type EntryText = (Seq<char>, Seq<Seq<char>>, Seq<Seq<char>>, Seq<SenseText>);

/// The `<entry>` elements of `ds`, in order.
pub open spec fn entries_events(ds: Seq<EntryText>) -> Seq<XmlEventView>
    decreases ds.len(),
{
    if ds.len() == 0 {
        seq![]
    } else {
        let d = ds.last();
        entries_events(ds.drop_last()) + entry_events(d.0, d.1, d.2, d.3)
    }
}

/// A `<JMdict>` document holding the entries `ds`.
pub open spec fn document_events(ds: Seq<EntryText>) -> Seq<XmlEventView> {
    seq![XmlEventView::Start(n_root())] + entries_events(ds) + seq![XmlEventView::End(n_root())]
}

/// The entry a written entry describes: its number, kanji forms and
/// readings; each sense's POS names and glosses; and as rules the
/// distinct POS names of all its senses in first-seen order.
pub open spec fn described(d: EntryText) -> EntryView {
    EntryView {
        seq: parse_i64(trim_ws(d.0))->0,
        kanji: d.1,
        readings: d.2,
        senses: Seq::new(d.3.len(), |j: int| SenseView { pos: d.3[j].0, glosses: d.3[j].1 }),
        rules: rules_from(seq![], d.3),
        priority: 0,
    }
}

/// A parser state between elements of an entry.
pub open spec fn settled(st: ParseState) -> bool {
    &&& st.seq is Some
    &&& !st.in_kanji && !st.in_reading && !st.in_sense && !st.collecting_text && !st.collecting_gloss
    &&& st.cur_pos == Seq::<Seq<char>>::empty() && st.cur_glosses == Seq::<Seq<char>>::empty()
}

proof fn lemma_names_distinct()
    ensures
        n_entry() != n_k_ele() && n_entry() != n_r_ele() && n_entry() != n_sense() && n_entry() != n_gloss(),
        n_k_ele() != n_r_ele() && n_k_ele() != n_sense() && n_k_ele() != n_gloss(),
        n_r_ele() != n_sense() && n_r_ele() != n_gloss() && n_sense() != n_gloss(),
        !is_text_elem(n_entry()) && !is_text_elem(n_k_ele()) && !is_text_elem(n_r_ele()),
        !is_text_elem(n_sense()) && !is_text_elem(n_gloss()),
        is_text_elem(n_keb()) && is_text_elem(n_reb()),
        n_keb() != n_entry() && n_keb() != n_k_ele() && n_keb() != n_r_ele() && n_keb() != n_sense()
            && n_keb() != n_gloss(),
        n_reb() != n_entry() && n_reb() != n_k_ele() && n_reb() != n_r_ele() && n_reb() != n_sense()
            && n_reb() != n_gloss(),
        n_ent_seq() != n_entry() && n_ent_seq() != n_k_ele() && n_ent_seq() != n_r_ele() && n_ent_seq() != n_sense()
            && n_ent_seq() != n_gloss() && !is_text_elem(n_ent_seq()),
        n_root() != n_entry() && n_root() != n_k_ele() && n_root() != n_r_ele() && n_root() != n_sense()
            && n_root() != n_gloss() && !is_text_elem(n_root()),
{
    assert(n_entry()[0] != n_k_ele()[0] && n_entry()[0] != n_r_ele()[0] && n_entry()[0] != n_sense()[0]);
    assert(n_entry()[0] != n_gloss()[0] && n_k_ele()[0] != n_r_ele()[0] && n_k_ele()[0] != n_sense()[0]);
    assert(n_k_ele()[0] != n_gloss()[0] && n_r_ele()[0] != n_sense()[0] && n_r_ele()[0] != n_gloss()[0]);
    assert(n_sense()[0] != n_gloss()[0]);
    assert(n_keb().len() != n_entry().len() && n_keb().len() != n_k_ele().len() && n_keb().len() != n_sense().len());
    assert(n_reb().len() != n_entry().len() && n_reb().len() != n_r_ele().len() && n_reb().len() != n_gloss().len());
    assert(n_keb()[0] != n_reb()[0] && n_keb()[0] != n_pos()[0] && n_reb()[0] != n_pos()[0]);
    assert(n_ent_seq().len() != 5 && n_ent_seq().len() != 3);
    assert(n_root().len() != 5 && n_root().len() != 3);
    assert(n_entry().len() == 5 && n_k_ele().len() == 5 && n_r_ele().len() == 5 && n_sense().len() == 5);
    assert(n_gloss().len() == 5 && n_keb().len() == 3 && n_reb().len() == 3 && n_pos().len() == 3);
}

#[verifier::spinoff_prover]
#[verifier::rlimit(60)]
proof fn lemma_kanji_run(st: ParseState, es: Seq<EntryView>, ks: Seq<Seq<char>>)
    requires
        settled(st),
    ensures
        run_on((st, es), kanji_events(ks)) == (ParseState { kanji: st.kanji + ks, ..st }, es),
    decreases ks.len(),
{
    lemma_names_distinct();
    if ks.len() == 0 {
        assert(st.kanji + ks =~= st.kanji);
    } else {
        lemma_kanji_run(st, es, ks.drop_last());
        let block = seq![XmlEventView::Start(n_k_ele())] + text_element(n_keb(), ks.last()) + seq![
            XmlEventView::End(n_k_ele()),
        ];
        lemma_run_on_concat((st, es), kanji_events(ks.drop_last()), block);
        let mid = ParseState { kanji: st.kanji + ks.drop_last(), ..st };
        reveal_with_fuel(run_on, 6);
        assert(block =~= seq![
            XmlEventView::Start(n_k_ele()),
            XmlEventView::Start(n_keb()),
            XmlEventView::Text(ks.last()),
            XmlEventView::End(n_keb()),
            XmlEventView::End(n_k_ele()),
        ]);
        assert(st.kanji + ks =~= (st.kanji + ks.drop_last()).push(ks.last()));
        assert(run_on((mid, es), block) == (ParseState { kanji: st.kanji + ks, ..st }, es));
    }
}

#[verifier::spinoff_prover]
#[verifier::rlimit(60)]
proof fn lemma_reading_run(st: ParseState, es: Seq<EntryView>, rs: Seq<Seq<char>>)
    requires
        settled(st),
    ensures
        run_on((st, es), reading_events(rs)) == (ParseState { readings: st.readings + rs, ..st }, es),
    decreases rs.len(),
{
    lemma_names_distinct();
    if rs.len() == 0 {
        assert(st.readings + rs =~= st.readings);
    } else {
        lemma_reading_run(st, es, rs.drop_last());
        let block = seq![XmlEventView::Start(n_r_ele())] + text_element(n_reb(), rs.last()) + seq![
            XmlEventView::End(n_r_ele()),
        ];
        lemma_run_on_concat((st, es), reading_events(rs.drop_last()), block);
        let mid = ParseState { readings: st.readings + rs.drop_last(), ..st };
        reveal_with_fuel(run_on, 6);
        assert(block =~= seq![
            XmlEventView::Start(n_r_ele()),
            XmlEventView::Start(n_reb()),
            XmlEventView::Text(rs.last()),
            XmlEventView::End(n_reb()),
            XmlEventView::End(n_r_ele()),
        ]);
        assert(st.readings + rs =~= (st.readings + rs.drop_last()).push(rs.last()));
        assert(run_on((mid, es), block) == (ParseState { readings: st.readings + rs, ..st }, es));
    }
}

/// A parser state inside a `<sense>`, between its glosses.
pub open spec fn in_sense_between(st: ParseState) -> bool {
    &&& st.seq is Some
    &&& !st.in_kanji && !st.in_reading && st.in_sense && !st.collecting_text && !st.collecting_gloss
}

#[verifier::spinoff_prover]
#[verifier::rlimit(60)]
proof fn lemma_gloss_run(st: ParseState, es: Seq<EntryView>, gs: Seq<Seq<char>>)
    requires
        in_sense_between(st),
    ensures
        run_on((st, es), gloss_events(gs)) == (ParseState { cur_glosses: st.cur_glosses + gs, ..st }, es),
    decreases gs.len(),
{
    lemma_names_distinct();
    if gs.len() == 0 {
        assert(st.cur_glosses + gs =~= st.cur_glosses);
    } else {
        lemma_gloss_run(st, es, gs.drop_last());
        let block = text_element(n_gloss(), gs.last());
        lemma_run_on_concat((st, es), gloss_events(gs.drop_last()), block);
        let mid = ParseState { cur_glosses: st.cur_glosses + gs.drop_last(), ..st };
        reveal_with_fuel(run_on, 4);
        assert(st.cur_glosses + gs =~= (st.cur_glosses + gs.drop_last()).push(gs.last()));
        assert(run_on((mid, es), block) == (ParseState { cur_glosses: st.cur_glosses + gs, ..st }, es));
    }
}

pub open spec fn sense_views(ss: Seq<SenseText>) -> Seq<SenseView> {
    Seq::new(ss.len(), |j: int| SenseView { pos: ss[j].0, glosses: ss[j].1 })
}

#[verifier::spinoff_prover]
#[verifier::rlimit(60)]
proof fn lemma_pos_run(st: ParseState, es: Seq<EntryView>, ps: Seq<Seq<char>>)
    requires
        in_sense_between(st),
    ensures
        run_on((st, es), pos_events(ps)) == (
            ParseState { cur_pos: st.cur_pos + ps, rules_seen: add_new(st.rules_seen, ps), ..st },
            es,
        ),
    decreases ps.len(),
{
    lemma_names_distinct();
    if ps.len() == 0 {
        assert(st.cur_pos + ps =~= st.cur_pos);
    } else {
        lemma_pos_run(st, es, ps.drop_last());
        let block = seq![
            XmlEventView::Start(n_pos()),
            XmlEventView::GeneralRef(ps.last()),
            XmlEventView::End(n_pos()),
        ];
        lemma_run_on_concat((st, es), pos_events(ps.drop_last()), block);
        let mid = ParseState {
            cur_pos: st.cur_pos + ps.drop_last(),
            rules_seen: add_new(st.rules_seen, ps.drop_last()),
            ..st
        };
        reveal_with_fuel(run_on, 4);
        assert(st.cur_pos + ps =~= (st.cur_pos + ps.drop_last()).push(ps.last()));
        assert(run_on((mid, es), block) == (
            ParseState { cur_pos: st.cur_pos + ps, rules_seen: add_new(st.rules_seen, ps), ..st },
            es,
        ));
    }
}

#[verifier::spinoff_prover]
#[verifier::rlimit(60)]
proof fn lemma_sense_run(st: ParseState, es: Seq<EntryView>, ss: Seq<SenseText>)
    requires
        settled(st),
    ensures
        run_on((st, es), sense_events(ss)) == (
            ParseState { senses: st.senses + sense_views(ss), rules_seen: rules_from(st.rules_seen, ss), ..st },
            es,
        ),
    decreases ss.len(),
{
    lemma_names_distinct();
    if ss.len() == 0 {
        assert(st.senses + sense_views(ss) =~= st.senses);
    } else {
        lemma_sense_run(st, es, ss.drop_last());
        let (ps, gs) = ss.last();
        let mid = ParseState {
            senses: st.senses + sense_views(ss.drop_last()),
            rules_seen: rules_from(st.rules_seen, ss.drop_last()),
            ..st
        };
        let opened = ParseState { in_sense: true, cur_pos: seq![], cur_glosses: seq![], ..mid };
        let a = seq![XmlEventView::Start(n_sense())];
        let c = seq![XmlEventView::End(n_sense())];
        assert(sense_events(ss) == sense_events(ss.drop_last()) + (a + pos_events(ps) + gloss_events(gs) + c));
        lemma_run_on_concat((st, es), sense_events(ss.drop_last()), a + pos_events(ps) + gloss_events(gs) + c);
        lemma_run_on_concat((mid, es), a + pos_events(ps) + gloss_events(gs), c);
        lemma_run_on_concat((mid, es), a + pos_events(ps), gloss_events(gs));
        lemma_run_on_concat((mid, es), a, pos_events(ps));
        reveal_with_fuel(run_on, 2);
        assert(run_on((mid, es), a) == (opened, es));
        lemma_pos_run(opened, es, ps);
        assert(Seq::<Seq<char>>::empty() + ps =~= ps);
        let posed = ParseState { cur_pos: ps, rules_seen: add_new(mid.rules_seen, ps), ..opened };
        assert(run_on((mid, es), a + pos_events(ps)) == (posed, es));
        lemma_gloss_run(posed, es, gs);
        assert(Seq::<Seq<char>>::empty() + gs =~= gs);
        let filled = ParseState { cur_glosses: gs, ..posed };
        assert(run_on((mid, es), a + pos_events(ps) + gloss_events(gs)) == (filled, es));
        assert(st.senses + sense_views(ss) =~= (st.senses + sense_views(ss.drop_last())).push(
            SenseView { pos: ps, glosses: gs },
        ));
        assert(rules_from(st.rules_seen, ss) == add_new(rules_from(st.rules_seen, ss.drop_last()), ps));
        assert(run_on((filled, es), c) == (
            ParseState { senses: st.senses + sense_views(ss), rules_seen: rules_from(st.rules_seen, ss), ..st },
            es,
        ));
    }
}

#[verifier::spinoff_prover]
#[verifier::rlimit(60)]
proof fn lemma_entry_run(es: Seq<EntryView>, d: EntryText)
    requires
        parse_i64(trim_ws(d.0)) is Some,
    ensures
        run_on((initial_state(), es), entry_events(d.0, d.1, d.2, d.3)) == (initial_state(), es.push(described(d))),
{
    lemma_names_distinct();
    let (n, ks, rs, ss) = d;
    let v = parse_i64(trim_ws(n))->0;
    let head = seq![XmlEventView::Start(n_entry())] + text_element(n_ent_seq(), n);
    let st0 = ParseState { seq: Some(v), ..initial_state() };
    reveal_with_fuel(run_on, 5);
    assert(head =~= seq![
        XmlEventView::Start(n_entry()),
        XmlEventView::Start(n_ent_seq()),
        XmlEventView::Text(n),
        XmlEventView::End(n_ent_seq()),
    ]);
    assert(run_on((initial_state(), es), head) == (st0, es));
    let p1 = head + kanji_events(ks);
    lemma_run_on_concat((initial_state(), es), head, kanji_events(ks));
    lemma_kanji_run(st0, es, ks);
    assert(Seq::<Seq<char>>::empty() + ks =~= ks);
    let st1 = ParseState { kanji: ks, ..st0 };
    let p2 = p1 + reading_events(rs);
    lemma_run_on_concat((initial_state(), es), p1, reading_events(rs));
    lemma_reading_run(st1, es, rs);
    assert(Seq::<Seq<char>>::empty() + rs =~= rs);
    let st2 = ParseState { readings: rs, ..st1 };
    let p3 = p2 + sense_events(ss);
    lemma_run_on_concat((initial_state(), es), p2, sense_events(ss));
    lemma_sense_run(st2, es, ss);
    assert(Seq::<SenseView>::empty() + sense_views(ss) =~= sense_views(ss));
    let st3 = ParseState { senses: sense_views(ss), rules_seen: rules_from(seq![], ss), ..st2 };
    let tail = seq![XmlEventView::End(n_entry())];
    lemma_run_on_concat((initial_state(), es), p3, tail);
    assert(entry_events(n, ks, rs, ss) == p3 + tail);
    assert(described(d).senses == sense_views(ss));
    assert(run_on((st3, es), tail) == (initial_state(), es.push(described(d))));
}

proof fn lemma_entries_run(es: Seq<EntryView>, ds: Seq<EntryText>)
    requires
        forall|i: int| 0 <= i < ds.len() ==> parse_i64(trim_ws((#[trigger] ds[i]).0)) is Some,
    ensures
        run_on((initial_state(), es), entries_events(ds)) == (initial_state(), es + ds.map_values(
            |d: EntryText| described(d),
        )),
    decreases ds.len(),
{
    if ds.len() == 0 {
        assert(es + ds.map_values(|d: EntryText| described(d)) =~= es);
    } else {
        let init = ds.drop_last();
        assert forall|i: int| 0 <= i < init.len() implies parse_i64(trim_ws((#[trigger] init[i]).0)) is Some by {
            assert(init[i] == ds[i]);
        }
        lemma_entries_run(es, init);
        let d = ds.last();
        lemma_run_on_concat((initial_state(), es), entries_events(init), entry_events(d.0, d.1, d.2, d.3));
        lemma_entry_run(es + init.map_values(|d: EntryText| described(d)), d);
        assert(es + ds.map_values(|d: EntryText| described(d)) =~= (es + init.map_values(
            |d: EntryText| described(d),
        )).push(described(d)));
    }
}

/// A `<JMdict>` document whose entries each hold a number, kanji forms
/// (`<k_ele><keb>`), readings (`<r_ele><reb>`) and senses (`<sense>`
/// with `<pos>&name;</pos>` then `<gloss>` elements) parses, event by
/// event, into one entry per `<entry>` in document order: its number,
/// its kanji forms and readings in order; for each `<sense>` exactly the
/// POS names and `<gloss>` texts between that sense's own start and end,
/// in order; and as rules the distinct POS names of all its senses, each
/// once, in first-seen order.
pub proof fn document_entries(ds: Seq<EntryText>)
    requires
        forall|i: int| 0 <= i < ds.len() ==> parse_i64(trim_ws((#[trigger] ds[i]).0)) is Some,
    ensures
        entries_of(document_events(ds)) == ds.map_values(|d: EntryText| described(d)),
{
    lemma_names_distinct();
    let evs = document_events(ds);
    lemma_run_events_on(evs);
    let a = seq![XmlEventView::Start(n_root())];
    let c = seq![XmlEventView::End(n_root())];
    lemma_run_on_concat((initial_state(), seq![]), a + entries_events(ds), c);
    lemma_run_on_concat((initial_state(), seq![]), a, entries_events(ds));
    reveal_with_fuel(run_on, 2);
    assert(run_on((initial_state(), seq![]), a) == (initial_state(), Seq::<EntryView>::empty()));
    lemma_entries_run(seq![], ds);
    assert(Seq::<EntryView>::empty() + ds.map_values(|d: EntryText| described(d)) =~= ds.map_values(
        |d: EntryText| described(d),
    ));
}

} // verus!
