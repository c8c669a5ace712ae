//! Events of the target app: reading its stream and finding the event that a wait is for.
//! A wait is an edge that has not fired. It costs no tokens and no polling.

use crate::cut::{cut, is_space, pos, pos_at, space, split_once, strip_prefix, trim_end_char, trim_tail, without_prefix};
use crate::json::{
    as_str, as_u64, json_of, member, obj_view, parse_text, str_of, u64_of, Json, JsonV,
};
use crate::object::{no_entries, push_entry};
use crate::scheduler::wait_text;
use crate::text::{chars_of, dec, owned, push_dec, same, string_of, views};
use vstd::prelude::*;

verus! {

/// Why a wait on the event bus ended without an event.
#[derive(Debug, PartialEq)]
pub enum BusError {
    Timeout { kind: String, id: Option<u64> },
    Closed,
    Missing,
}

pub enum BusErrorV {
    Timeout { kind: Seq<char>, id: Option<u64> },
    Closed,
    Missing,
}

impl View for BusError {
    type V = BusErrorV;

    open spec fn view(&self) -> BusErrorV {
        match self {
            BusError::Timeout { kind, id } => BusErrorV::Timeout { kind: kind@, id: *id },
            BusError::Closed => BusErrorV::Closed,
            BusError::Missing => BusErrorV::Missing,
        }
    }
}

/// The error in words.
pub open spec fn bus_error_text(e: BusErrorV) -> Seq<char> {
    match e {
        BusErrorV::Timeout { kind, id } => wait_text(kind, id),
        BusErrorV::Closed => "event stream closed"@,
        BusErrorV::Missing => "no event bus in this run"@,
    }
}

impl BusError {
    /// The error in words.
    pub fn to_string(&self) -> (r: String)
        ensures
            r@ == bus_error_text(self@),
    {
        match self {
            BusError::Timeout { kind, id } => {
                let mut t = owned("timed out waiting for ");
                t.push_str(kind.as_str());
                match id {
                    Some(i) => {
                        let ghost before = t@;
                        t.push_str(" id=");
                        push_dec(&mut t, *i as u128);
                        assert(t@ =~= before + (" id="@ + dec(*i as nat)));
                    },
                    None => {
                        assert(t@ + Seq::<char>::empty() =~= t@);
                    },
                }
                t
            },
            BusError::Closed => owned("event stream closed"),
            BusError::Missing => owned("no event bus in this run"),
        }
    }
}

// ---------- the stream ----------

/// `s` without the whitespace in front.
pub open spec fn front_trimmed(s: Seq<char>) -> Seq<char>
    decreases s.len(),
{
    if s.len() > 0 && space(s[0]) {
        front_trimmed(s.drop_first())
    } else {
        s
    }
}

fn trim_front_space(s: &str) -> (r: String)
    ensures
        r@ == front_trimmed(s@),
{
    let cs = chars_of(s);
    let mut i: usize = 0;
    assert(s@.skip(0) =~= s@);
    while i < cs.len() && is_space(cs[i])
        invariant
            i <= cs@.len(),
            cs@ == s@,
            front_trimmed(s@) == front_trimmed(s@.skip(i as int)),
        decreases cs@.len() - i,
    {
        assert(s@.skip(i as int).drop_first() =~= s@.skip(i + 1));
        i += 1;
    }
    let r = string_of(&cs, i, cs.len());
    assert(r@ =~= s@.skip(i as int));
    r
}

/// What a line of the stream does to the data of the event being read: more data, or the end of
/// the event.
pub open spec fn line_read(data: Seq<char>, line: Seq<char>) -> (Seq<char>, Option<Seq<char>>) {
    let l = trim_tail(line, '\r');
    match without_prefix(l, "data:"@) {
        Some(d) => (data + front_trimmed(d), None),
        None => if l.len() == 0 && data.len() > 0 {
            (Seq::empty(), Some(data))
        } else {
            (data, None)
        },
    }
}

/// What has been read of the stream: the unfinished line, the data of the event being read, and
/// the finished events.
pub struct ReadV {
    pub rest: Seq<char>,
    pub data: Seq<char>,
    pub events: Seq<Seq<char>>,
}

/// Reading a text line by line.
pub open spec fn reading(text: Seq<char>, data: Seq<char>) -> ReadV
    decreases text.len(),
{
    match cut(text, '\n') {
        None => ReadV { rest: text, data, events: Seq::empty() },
        Some((line, rest)) => {
            let (d, e) = line_read(data, line);
            let more = if rest.len() < text.len() {
                reading(rest, d)
            } else {
                ReadV { rest, data: d, events: Seq::empty() }
            };
            match e {
                Some(x) => ReadV { events: seq![x] + more.events, ..more },
                None => more,
            }
        },
    }
}

/// A reader of a stream of events that arrives in pieces.
pub struct Feed {
    pub buf: String,
    pub data: String,
}

proof fn cut_shorter(text: Seq<char>)
    ensures
        cut(text, '\n') matches Some((line, rest)) ==> rest.len() < text.len(),
{
    if text.contains('\n') {
        pos_is_first(text, '\n');
    }
}

impl Feed {
    pub fn new() -> (r: Feed)
        ensures
            r.buf@.len() == 0,
            r.data@.len() == 0,
    {
        Feed { buf: String::new(), data: String::new() }
    }

    /// Read one more piece: the data of the events that it ends.
    pub fn push(&mut self, piece: &str) -> (r: Vec<String>)
        ensures
            ({
                let all = reading(old(self).buf@ + piece@, old(self).data@);
                final(self).buf@ == all.rest && final(self).data@ == all.data && views(r@)
                    == all.events
            }),
    {
        let mut text = self.buf.clone();
        text.push_str(piece);
        let mut data = self.data.clone();
        let ghost whole = reading(text@, data@);
        let mut out: Vec<String> = Vec::new();
        assert(views(out@) + reading(text@, data@).events =~= whole.events);
        loop
            invariant
                reading(text@, data@).rest == whole.rest,
                reading(text@, data@).data == whole.data,
                views(out@) + reading(text@, data@).events == whole.events,
                whole == reading(old(self).buf@ + piece@, old(self).data@),
            ensures
                cut(text@, '\n') is None,
            decreases text@.len(),
        {
            match split_once(text.as_str(), '\n') {
                None => {
                    break;
                },
                Some((line, rest)) => {
                    let ghost before = reading(text@, data@);
                    let ghost (d1, e1) = line_read(data@, line@);
                    proof {
                        cut_shorter(text@);
                    }
                    let l = trim_end_char(line.as_str(), '\r');
                    match strip_prefix(l.as_str(), "data:") {
                        Some(d) => {
                            let t = trim_front_space(d.as_str());
                            data.push_str(t.as_str());
                        },
                        None => {
                            proof {
                                reveal_strlit("");
                                if l@.len() == 0 {
                                    assert(l@ =~= ""@);
                                }
                                if data@.len() == 0 {
                                    assert(data@ =~= ""@);
                                }
                            }
                            if same(l.as_str(), "") && !same(data.as_str(), "") {
                                let ghost o = views(out@);
                                let mut full = String::new();
                                std::mem::swap(&mut full, &mut data);
                                assert(data@ =~= Seq::<char>::empty());
                                let ghost x = full@;
                                out.push(full);
                                assert(views(out@) =~= o.push(x));
                                assert(o.push(x) + reading(rest@, data@).events =~= o + (seq![x]
                                    + reading(rest@, data@).events));
                            }
                        },
                    }
                    text = rest;
                },
            }
        }
        assert(views(out@) + Seq::<Seq<char>>::empty() =~= views(out@));
        self.buf = text;
        self.data = data;
        out
    }
}

proof fn pos_is_first(s: Seq<char>, c: char)
    requires
        s.contains(c),
    ensures
        pos(s, c) < s.len(),
        s[pos(s, c) as int] == c,
        forall|j: int| 0 <= j < pos(s, c) ==> s[j] != c,
    decreases s.len(),
{
    if s[0] != c {
        let t = s.drop_first();
        let k = choose|k: int| 0 <= k < s.len() && s[k] == c;
        assert(t[k - 1] == c);
        pos_is_first(t, c);
        assert(s[pos(s, c) as int] == t[pos(t, c) as int]);
        assert forall|j: int| 0 <= j < pos(s, c) implies s[j] != c by {
            if j > 0 {
                assert(s[j] == t[j - 1]);
            }
        }
    }
}

proof fn cut_longer(a: Seq<char>, b: Seq<char>, c: char)
    ensures
        cut(a, c) matches Some((l, r)) ==> cut(a + b, c) == Some((l, r + b)),
{
    if a.contains(c) {
        let i = pos(a, c);
        pos_is_first(a, c);
        let s = a + b;
        assert forall|j: int| 0 <= j < i implies s[j] != c by {
            assert(s[j] == a[j]);
        }
        assert(s[i as int] == c);
        pos_at(s, c, i as int);
        assert(s.take(i as int) =~= a.take(i as int));
        assert(s.skip(i as int + 1) =~= a.skip(i as int + 1) + b);
    }
}

/// How the stream is broken into pieces does not show: reading one piece and then another gives
/// the same events, in the same order, and leaves the reader in the same state as reading both at
/// once.
pub proof fn pieces_do_not_show(a: Seq<char>, b: Seq<char>, data: Seq<char>)
    ensures
        ({
            let one = reading(a, data);
            let two = reading(one.rest + b, one.data);
            let both = reading(a + b, data);
            both.rest == two.rest && both.data == two.data && both.events == one.events
                + two.events
        }),
    decreases a.len(),
{
    let one = reading(a, data);
    let two = reading(one.rest + b, one.data);
    let both = reading(a + b, data);
    match cut(a, '\n') {
        None => {
            assert(both.events =~= one.events + two.events);
        },
        Some((line, rest)) => {
            cut_longer(a, b, '\n');
            cut_shorter(a);
            cut_shorter(a + b);
            let (d, e) = line_read(data, line);
            pieces_do_not_show(rest, b, d);
            assert(both.events =~= one.events + two.events);
        },
    }
}

// ---------- events ----------

/// Something that happened in the app.
#[derive(Debug)]
pub struct AppEvent {
    pub seq: u64,
    pub kind: String,
    pub entity: String,
    pub id: u64,
    pub data: Json,
}

pub struct AppEventV {
    pub seq: u64,
    pub kind: Seq<char>,
    pub entity: Seq<char>,
    pub id: u64,
    pub data: JsonV,
}

impl View for AppEvent {
    type V = AppEventV;

    open spec fn view(&self) -> AppEventV {
        AppEventV {
            seq: self.seq,
            kind: self.kind@,
            entity: self.entity@,
            id: self.id,
            data: self.data@,
        }
    }
}

impl Clone for AppEvent {
    fn clone(&self) -> (r: Self)
        ensures
            r@ == self@,
    {
        AppEvent {
            seq: self.seq,
            kind: self.kind.clone(),
            entity: self.entity.clone(),
            id: self.id,
            data: self.data.clone(),
        }
    }
}

pub open spec fn events_view(es: Seq<AppEvent>) -> Seq<AppEventV> {
    es.map_values(|e: AppEvent| e@)
}

/// An event as JSON.
pub open spec fn event_json(e: AppEventV) -> JsonV {
    JsonV::Obj(
        seq![
            ("data"@, e.data),
            ("entity"@, JsonV::Str(e.entity)),
            ("id"@, JsonV::Int(e.id as int)),
            ("kind"@, JsonV::Str(e.kind)),
            ("seq"@, JsonV::Int(e.seq as int)),
        ],
    )
}

/// The event that a text holds, if it holds one.
pub open spec fn event_in(text: Seq<char>) -> Option<AppEventV> {
    match json_of(text) {
        Ok(v) => event_of(v),
        Err(_) => None,
    }
}

/// The event that a JSON value describes. `data` may be missing.
pub open spec fn event_of(v: JsonV) -> Option<AppEventV> {
    match (
        u64_of(member(v, "seq"@)),
        str_of(member(v, "kind"@)),
        str_of(member(v, "entity"@)),
        u64_of(member(v, "id"@)),
    ) {
        (Some(seq), Some(kind), Some(entity), Some(id)) => Some(
            AppEventV {
                seq,
                kind,
                entity,
                id,
                data: match member(v, "data"@) {
                    Some(d) => d,
                    None => JsonV::Null,
                },
            },
        ),
        _ => None,
    }
}

impl AppEvent {
    /// The event as JSON.
    pub fn to_json(&self) -> (r: Json)
        ensures
            r@ == event_json(self@),
    {
        let mut o = no_entries();
        push_entry(&mut o, "data", self.data.clone());
        push_entry(&mut o, "entity", Json::Str(self.entity.clone()));
        push_entry(&mut o, "id", Json::Int(self.id as i128));
        push_entry(&mut o, "kind", Json::Str(self.kind.clone()));
        push_entry(&mut o, "seq", Json::Int(self.seq as i128));
        let r = Json::Obj(o);
        assert(obj_view(o@) =~= seq![
            ("data"@, self.data@),
            ("entity"@, JsonV::Str(self.entity@)),
            ("id"@, JsonV::Int(self.id as int)),
            ("kind"@, JsonV::Str(self.kind@)),
            ("seq"@, JsonV::Int(self.seq as int)),
        ]);
        r
    }

    /// The event that a text holds, if it holds one.
    pub fn from_text(text: &str) -> (r: Option<AppEvent>)
        ensures
            match r {
                Some(e) => event_in(text@) == Some(e@),
                None => event_in(text@) is None,
            },
    {
        match parse_text(text) {
            Ok(v) => AppEvent::from_json(&v),
            Err(_) => None,
        }
    }

    /// The event that a JSON object describes.
    pub fn from_json(v: &Json) -> (r: Option<AppEvent>)
        ensures
            match r {
                Some(e) => event_of(v@) == Some(e@),
                None => event_of(v@) is None,
            },
    {
        match (
            as_u64(v.get("seq")),
            as_str(v.get("kind")),
            as_str(v.get("entity")),
            as_u64(v.get("id")),
        ) {
            (Some(seq), Some(kind), Some(entity), Some(id)) => {
                let data = match v.get("data") {
                    Some(d) => d.clone(),
                    None => Json::Null,
                };
                Some(AppEvent { seq, kind: owned(kind), entity: owned(entity), id, data })
            },
            _ => None,
        }
    }
}

/// What an event is written as, it is read from.
pub proof fn events_read_back(e: AppEventV)
    ensures
        event_of(event_json(e)) == Some(e),
{
    reveal_strlit("data");
    reveal_strlit("entity");
    reveal_strlit("id");
    reveal_strlit("kind");
    reveal_strlit("seq");
    let xs = event_json(e)->Obj_0;
    assert("data"@.len() == 4 && "entity"@.len() == 6 && "id"@.len() == 2 && "kind"@.len() == 4
        && "seq"@.len() == 3);
    assert("data"@[0] != "kind"@[0]);
    reveal_with_fuel(crate::json::entry, 6);
    let a = xs.drop_first();
    let b = a.drop_first();
    let c = b.drop_first();
    let d = c.drop_first();
    assert(a[0] == xs[1] && b[0] == xs[2] && c[0] == xs[3] && d[0] == xs[4]);
}

/// Whether an event is of a kind and, where an id is given, of that id.
pub open spec fn wanted(e: AppEventV, kind: Seq<char>, id: Option<u64>) -> bool {
    e.kind == kind && (id matches Some(i) ==> e.id == i)
}

/// The first event that a wait is for.
pub open spec fn first_wanted(
    es: Seq<AppEventV>,
    kind: Seq<char>,
    id: Option<u64>,
) -> Option<AppEventV>
    decreases es.len(),
{
    if es.len() == 0 {
        None
    } else if wanted(es[0], kind, id) {
        Some(es[0])
    } else {
        first_wanted(es.drop_first(), kind, id)
    }
}

proof fn first_wanted_skip(es: Seq<AppEventV>, kind: Seq<char>, id: Option<u64>, i: int)
    requires
        0 <= i <= es.len(),
        forall|j: int| 0 <= j < i ==> !wanted(#[trigger] es[j], kind, id),
    ensures
        first_wanted(es, kind, id) == first_wanted(es.skip(i), kind, id),
    decreases i,
{
    if i == 0 {
        assert(es.skip(0) =~= es);
    } else {
        assert(!wanted(es[0], kind, id));
        let t = es.drop_first();
        assert forall|j: int| 0 <= j < i - 1 implies !wanted(#[trigger] t[j], kind, id) by {
            assert(t[j] == es[j + 1]);
        }
        first_wanted_skip(t, kind, id, i - 1);
        assert(t.skip(i - 1) =~= es.skip(i));
    }
}

/// The events seen since the stream was opened.
pub struct EventLog {
    pub seen: Vec<AppEvent>,
}

impl EventLog {
    pub fn new() -> (r: EventLog)
        ensures
            r.seen@.len() == 0,
    {
        EventLog { seen: Vec::new() }
    }

    pub fn push(&mut self, e: AppEvent)
        ensures
            events_view(final(self).seen@) == events_view(old(self).seen@).push(e@),
    {
        let ghost before = events_view(self.seen@);
        self.seen.push(e);
        assert(events_view(self.seen@) =~= before.push(e@));
    }

    /// The first event of a kind, optionally for one entity id, seen since the stream was opened.
    pub fn find(&self, kind: &str, id: Option<u64>) -> (r: Option<&AppEvent>)
        ensures
            match r {
                Some(e) => first_wanted(events_view(self.seen@), kind@, id) == Some(e@),
                None => first_wanted(events_view(self.seen@), kind@, id) is None,
            },
    {
        let ghost es = events_view(self.seen@);
        let mut i: usize = 0;
        while i < self.seen.len()
            invariant
                i <= self.seen@.len(),
                es == events_view(self.seen@),
                forall|j: int| 0 <= j < i ==> !wanted(#[trigger] es[j], kind@, id),
            decreases self.seen@.len() - i,
        {
            let e = &self.seen[i];
            assert(es[i as int] == e@);
            let same_id = match id {
                Some(x) => e.id == x,
                None => true,
            };
            if same(e.kind.as_str(), kind) && same_id {
                proof {
                    first_wanted_skip(es, kind@, id, i as int);
                    assert(es.skip(i as int)[0] == es[i as int]);
                }
                return Some(e);
            }
            i += 1;
        }
        proof {
            first_wanted_skip(es, kind@, id, i as int);
            assert(es.skip(i as int).len() == 0);
        }
        None
    }
}

} // verus!
