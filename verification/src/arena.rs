//! Arenas: events (moves) with polarity and kind, linked by enabling edges.
//!
//! An arena is the game board of game semantics. The product `A x B`
//! places two arenas side by side; the function arena `A -> B` reverses
//! the polarity of the domain's events.
use vstd::prelude::*;

verus! {

/// Who makes a move.
#[derive(Debug, Clone, Copy, PartialEq, Eq, Hash, Structural)]
pub enum Polarity {
    /// Player (proponent, +): the program.
    Player,
    /// Opponent (-): the environment.
    Opponent,
}

/// Whether a move asks or answers.
#[derive(Debug, Clone, Copy, PartialEq, Eq, Hash, Structural)]
pub enum MoveKind {
    /// A question opens an interaction.
    Question,
    /// An answer closes one.
    Answer,
}

/// The other side of a polarity.
pub open spec fn flipped(p: Polarity) -> Polarity {
    match p {
        Polarity::Player => Polarity::Opponent,
        Polarity::Opponent => Polarity::Player,
    }
}

impl Polarity {
    /// Swap Player and Opponent.
    pub fn flip(self) -> (r: Polarity)
        ensures
            r == flipped(self),
    {
        match self {
            Polarity::Player => Polarity::Opponent,
            Polarity::Opponent => Polarity::Player,
        }
    }

    /// `+` for Player, `-` for Opponent.
    pub fn symbol(self) -> (r: &'static str)
        ensures
            self == Polarity::Player ==> r@ == "+"@,
            self == Polarity::Opponent ==> r@ == "-"@,
    {
        match self {
            Polarity::Player => "+",
            Polarity::Opponent => "-",
        }
    }
}

impl MoveKind {
    /// `q` for a question, `a` for an answer.
    pub fn symbol(self) -> (r: &'static str)
        ensures
            self == MoveKind::Question ==> r@ == "q"@,
            self == MoveKind::Answer ==> r@ == "a"@,
    {
        match self {
            MoveKind::Question => "q",
            MoveKind::Answer => "a",
        }
    }
}

/// A single event (move) of an arena.
#[derive(Debug, Clone)]
pub struct Event {
    /// Identifier of the event within its arena.
    pub id: usize,
    /// Who plays this move.
    pub polarity: Polarity,
    /// Question or answer.
    pub kind: MoveKind,
    /// Human-readable label.
    pub label: String,
    /// The enabling event, `None` for an initial move.
    pub justifier: Option<usize>,
}

/// The mathematical content of an event: its label taken as characters.
pub struct EventView {
    pub id: usize,
    pub polarity: Polarity,
    pub kind: MoveKind,
    pub label: Seq<char>,
    pub justifier: Option<usize>,
}

impl View for Event {
    type V = EventView;

    open spec fn view(&self) -> EventView {
        EventView {
            id: self.id,
            polarity: self.polarity,
            kind: self.kind,
            label: self.label@,
            justifier: self.justifier,
        }
    }
}

/// An arena: events and explicit enabling edges `(source, target)`.
#[derive(Debug, Clone)]
pub struct Arena {
    pub name: String,
    pub events: Vec<Event>,
    pub enabling: Vec<(usize, usize)>,
}

/// The mathematical content of an arena.
pub struct ArenaView {
    pub name: Seq<char>,
    pub events: Seq<EventView>,
    pub enabling: Seq<(usize, usize)>,
}

/// The views of a sequence of events.
pub open spec fn view_events(s: Seq<Event>) -> Seq<EventView> {
    Seq::new(s.len(), |i: int| s[i]@)
}

impl View for Arena {
    type V = ArenaView;

    open spec fn view(&self) -> ArenaView {
        ArenaView { name: self.name@, events: view_events(self.events@), enabling: self.enabling@ }
    }
}

/// Identifiers of the events without a justifier, in order.
pub open spec fn initial_ids(es: Seq<EventView>) -> Seq<usize>
    decreases es.len(),
{
    if es.len() == 0 {
        Seq::empty()
    } else {
        let rest = initial_ids(es.drop_last());
        if es.last().justifier is None {
            rest.push(es.last().id)
        } else {
            rest
        }
    }
}

/// Targets of the edges that leave `src`, in order.
pub open spec fn targets_of(edges: Seq<(usize, usize)>, src: usize) -> Seq<usize>
    decreases edges.len(),
{
    if edges.len() == 0 {
        Seq::empty()
    } else {
        let rest = targets_of(edges.drop_last(), src);
        if edges.last().0 == src {
            rest.push(edges.last().1)
        } else {
            rest
        }
    }
}

/// The event with its polarity reversed.
pub open spec fn flip_event(e: EventView) -> EventView {
    EventView { polarity: flipped(e.polarity), ..e }
}

/// The event moved `off` places along: its id and justifier.
pub open spec fn shift_event(e: EventView, off: nat) -> EventView {
    EventView {
        id: (e.id + off) as usize,
        justifier: match e.justifier {
            Some(j) => Some((j + off) as usize),
            None => None,
        },
        ..e
    }
}

/// An edge moved `off` places along.
pub open spec fn shift_edge(edge: (usize, usize), off: nat) -> (usize, usize) {
    ((edge.0 + off) as usize, (edge.1 + off) as usize)
}

/// Every id, justifier and edge end of the arena stays within `usize` when
/// moved `off` places along.
pub open spec fn shiftable(a: ArenaView, off: nat) -> bool {
    &&& forall|i: int| 0 <= i < a.events.len() ==> #[trigger] a.events[i].id + off <= usize::MAX
    &&& forall|i: int|
        0 <= i < a.events.len() && #[trigger] a.events[i].justifier is Some
            ==> a.events[i].justifier->0 + off <= usize::MAX
    &&& forall|i: int|
        0 <= i < a.enabling.len() ==> #[trigger] a.enabling[i].0 + off <= usize::MAX
            && a.enabling[i].1 + off <= usize::MAX
}

/// The edges `(d, c)` for each `c` of `cs` in turn and, within it, each `d` of `ds`.
pub open spec fn cross_edges(cs: Seq<usize>, ds: Seq<usize>) -> Seq<(usize, usize)>
    decreases cs.len(),
{
    if cs.len() == 0 {
        Seq::empty()
    } else {
        cross_edges(cs.drop_last(), ds) + ds.map_values(|d: usize| (d, cs.last()))
    }
}

/// The function arena `d -> c`.
pub open spec fn function_arena_spec(d: ArenaView, c: ArenaView) -> ArenaView {
    let off = d.events.len();
    let shifted = c.events.map_values(|e: EventView| shift_event(e, off));
    ArenaView {
        name: d.name + " -> "@ + c.name,
        events: d.events.map_values(|e: EventView| flip_event(e)) + shifted,
        enabling: d.enabling + c.enabling.map_values(|e: (usize, usize)| shift_edge(e, off))
            + cross_edges(initial_ids(shifted), initial_ids(d.events)),
    }
}

/// The product arena `a x b`.
pub open spec fn product_arena_spec(a: ArenaView, b: ArenaView) -> ArenaView {
    let off = a.events.len();
    ArenaView {
        name: a.name + " x "@ + b.name,
        events: a.events + b.events.map_values(|e: EventView| shift_event(e, off)),
        enabling: a.enabling + b.enabling.map_values(|e: (usize, usize)| shift_edge(e, off)),
    }
}

proof fn lemma_view_events_push(s: Seq<Event>, e: Event)
    ensures
        view_events(s.push(e)) == view_events(s).push(e@),
{
    assert(view_events(s.push(e)) =~= view_events(s).push(e@));
}

impl Arena {
    /// An arena with no events.
    pub fn new(name: &str) -> (r: Arena)
        ensures
            r@.name == name@,
            r@.events == Seq::<EventView>::empty(),
            r@.enabling == Seq::<(usize, usize)>::empty(),
    {
        let r = Arena { name: name.to_owned(), events: Vec::new(), enabling: Vec::new() };
        assert(r@.events =~= Seq::<EventView>::empty());
        r
    }

    /// Add an event and return its id, which is its position.
    pub fn add_event(
        &mut self,
        polarity: Polarity,
        kind: MoveKind,
        label: &str,
        justifier: Option<usize>,
    ) -> (id: usize)
        ensures
            id == old(self)@.events.len(),
            final(self)@.name == old(self)@.name,
            final(self)@.events == old(self)@.events.push(
                EventView { id, polarity, kind, label: label@, justifier },
            ),
            final(self)@.enabling == match justifier {
                Some(j) => old(self)@.enabling.push((j, id)),
                None => old(self)@.enabling,
            },
    {
        let id = self.events.len();
        let e = Event { id, polarity, kind, label: label.to_owned(), justifier };
        proof {
            lemma_view_events_push(self.events@, e);
        }
        self.events.push(e);
        if let Some(j) = justifier {
            self.enabling.push((j, id));
        }
        id
    }

    /// Ids of the initial moves (events with no justifier).
    pub fn initial_moves(&self) -> (r: Vec<usize>)
        ensures
            r@ == initial_ids(self@.events),
    {
        initial_moves_of(&self.events)
    }

    /// Events directly enabled by `event_id`.
    pub fn children(&self, event_id: usize) -> (r: Vec<usize>)
        ensures
            r@ == targets_of(self@.enabling, event_id),
    {
        let mut r: Vec<usize> = Vec::new();
        let mut i: usize = 0;
        while i < self.enabling.len()
            invariant
                i <= self.enabling.len(),
                r@ == targets_of(self@.enabling.take(i as int), event_id),
            decreases self.enabling.len() - i,
        {
            let (s, t) = self.enabling[i];
            assert(self@.enabling.take(i + 1).drop_last() =~= self@.enabling.take(i as int));
            if s == event_id {
                r.push(t);
            }
            i = i + 1;
        }
        assert(self@.enabling.take(i as int) =~= self@.enabling);
        r
    }

    /// The function arena `domain -> codomain`: the domain's events with their
    /// polarity reversed, then the codomain's events moved past them, and an
    /// edge from every domain initial move to every codomain initial move.
    pub fn function_arena(domain: &Arena, codomain: &Arena) -> (r: Arena)
        requires
            shiftable(codomain@, domain@.events.len()),
        ensures
            r@ == function_arena_spec(domain@, codomain@),
    {
        let mut name = domain.name.clone();
        name.append(" -> ");
        name.append(codomain.name.as_str());
        let mut events: Vec<Event> = Vec::new();
        let mut enabling: Vec<(usize, usize)> = Vec::new();
        let ghost dv = domain@;
        let ghost cv = codomain@;
        let mut i: usize = 0;
        while i < domain.events.len()
            invariant
                i <= domain.events.len(),
                dv == domain@,
                view_events(events@) == dv.events.take(i as int).map_values(
                    |e: EventView| flip_event(e),
                ),
            decreases domain.events.len() - i,
        {
            let e = &domain.events[i];
            let ne = Event {
                id: e.id,
                polarity: e.polarity.flip(),
                kind: e.kind,
                label: e.label.clone(),
                justifier: e.justifier,
            };
            proof {
                lemma_view_events_push(events@, ne);
                assert(dv.events.take(i + 1).map_values(|e: EventView| flip_event(e))
                    =~= dv.events.take(i as int).map_values(|e: EventView| flip_event(e)).push(
                    flip_event(dv.events[i as int]),
                ));
            }
            events.push(ne);
            i = i + 1;
        }
        assert(dv.events.take(i as int) =~= dv.events);
        let ghost flipped_part = view_events(events@);
        let mut i: usize = 0;
        while i < domain.enabling.len()
            invariant
                i <= domain.enabling.len(),
                dv == domain@,
                enabling@ == dv.enabling.take(i as int),
            decreases domain.enabling.len() - i,
        {
            enabling.push(domain.enabling[i]);
            assert(dv.enabling.take(i + 1) =~= dv.enabling.take(i as int).push(dv.enabling[i as int]));
            i = i + 1;
        }
        assert(dv.enabling.take(i as int) =~= dv.enabling);
        let off = domain.events.len();
        let mut i: usize = 0;
        while i < codomain.events.len()
            invariant
                i <= codomain.events.len(),
                off == dv.events.len(),
                cv == codomain@,
                shiftable(cv, off as nat),
                view_events(events@) == flipped_part + cv.events.take(i as int).map_values(
                    |e: EventView| shift_event(e, off as nat),
                ),
            decreases codomain.events.len() - i,
        {
            let e = &codomain.events[i];
            assert(cv.events[i as int].id + off <= usize::MAX);
            let j = match e.justifier {
                Some(j) => {
                    assert(cv.events[i as int].justifier is Some);
                    Some(j + off)
                },
                None => None,
            };
            let ne = Event {
                id: e.id + off,
                polarity: e.polarity,
                kind: e.kind,
                label: e.label.clone(),
                justifier: j,
            };
            proof {
                lemma_view_events_push(events@, ne);
                assert(cv.events.take(i + 1).map_values(|e: EventView| shift_event(e, off as nat))
                    =~= cv.events.take(i as int).map_values(
                    |e: EventView| shift_event(e, off as nat),
                ).push(shift_event(cv.events[i as int], off as nat)));
            }
            events.push(ne);
            i = i + 1;
        }
        assert(cv.events.take(i as int) =~= cv.events);
        let ghost shifted = cv.events.map_values(|e: EventView| shift_event(e, off as nat));
        let mut i: usize = 0;
        while i < codomain.enabling.len()
            invariant
                i <= codomain.enabling.len(),
                off == dv.events.len(),
                cv == codomain@,
                shiftable(cv, off as nat),
                enabling@ == dv.enabling + cv.enabling.take(i as int).map_values(
                    |e: (usize, usize)| shift_edge(e, off as nat),
                ),
            decreases codomain.enabling.len() - i,
        {
            let (s, t) = codomain.enabling[i];
            assert(cv.enabling[i as int].0 + off <= usize::MAX);
            enabling.push((s + off, t + off));
            assert(cv.enabling.take(i + 1).map_values(|e: (usize, usize)| shift_edge(e, off as nat))
                =~= cv.enabling.take(i as int).map_values(
                |e: (usize, usize)| shift_edge(e, off as nat),
            ).push(shift_edge(cv.enabling[i as int], off as nat)));
            i = i + 1;
        }
        assert(cv.enabling.take(i as int) =~= cv.enabling);
        let ghost base = enabling@;
        let domain_initials = initial_moves_of(&domain.events);
        assert(flipped_part.len() == dv.events.len());
        assert(view_events(events@).subrange(off as int, events@.len() as int) =~= shifted);
        let codomain_initials = initial_ids_from(&events, off);
        let mut c: usize = 0;
        while c < codomain_initials.len()
            invariant
                c <= codomain_initials.len(),
                enabling@ == base + cross_edges(codomain_initials@.take(c as int), domain_initials@),
            decreases codomain_initials.len() - c,
        {
            let ci = codomain_initials[c];
            let ghost before = enabling@;
            let mut d: usize = 0;
            while d < domain_initials.len()
                invariant
                    d <= domain_initials.len(),
                    enabling@ == before + domain_initials@.take(d as int).map_values(
                        |x: usize| (x, ci),
                    ),
                decreases domain_initials.len() - d,
            {
                enabling.push((domain_initials[d], ci));
                assert(domain_initials@.take(d + 1).map_values(|x: usize| (x, ci))
                    =~= domain_initials@.take(d as int).map_values(|x: usize| (x, ci)).push(
                    (domain_initials@[d as int], ci),
                ));
                d = d + 1;
            }
            assert(domain_initials@.take(d as int) =~= domain_initials@);
            assert(codomain_initials@.take(c + 1).drop_last() =~= codomain_initials@.take(
                c as int,
            ));
            c = c + 1;
        }
        assert(codomain_initials@.take(c as int) =~= codomain_initials@);
        let r = Arena { name, events, enabling };
        assert(r@.events =~= function_arena_spec(domain@, codomain@).events);
        assert(r@.enabling =~= function_arena_spec(domain@, codomain@).enabling);
        r
    }

    /// The product arena `a x b`: the events of `a`, then those of `b` moved
    /// past them; no edge joins the two.
    pub fn product_arena(a: &Arena, b: &Arena) -> (r: Arena)
        requires
            shiftable(b@, a@.events.len()),
        ensures
            r@ == product_arena_spec(a@, b@),
    {
        let mut name = a.name.clone();
        name.append(" x ");
        name.append(b.name.as_str());
        let mut events: Vec<Event> = Vec::new();
        let mut enabling: Vec<(usize, usize)> = Vec::new();
        let ghost av = a@;
        let ghost bv = b@;
        let mut i: usize = 0;
        while i < a.events.len()
            invariant
                i <= a.events.len(),
                av == a@,
                view_events(events@) == av.events.take(i as int),
            decreases a.events.len() - i,
        {
            let e = &a.events[i];
            let ne = Event {
                id: e.id,
                polarity: e.polarity,
                kind: e.kind,
                label: e.label.clone(),
                justifier: e.justifier,
            };
            proof {
                lemma_view_events_push(events@, ne);
                assert(av.events.take(i + 1) =~= av.events.take(i as int).push(
                    av.events[i as int],
                ));
            }
            events.push(ne);
            i = i + 1;
        }
        assert(av.events.take(i as int) =~= av.events);
        let mut i: usize = 0;
        while i < a.enabling.len()
            invariant
                i <= a.enabling.len(),
                av == a@,
                enabling@ == av.enabling.take(i as int),
            decreases a.enabling.len() - i,
        {
            enabling.push(a.enabling[i]);
            assert(av.enabling.take(i + 1) =~= av.enabling.take(i as int).push(av.enabling[i as int]));
            i = i + 1;
        }
        assert(av.enabling.take(i as int) =~= av.enabling);
        let off = a.events.len();
        let mut i: usize = 0;
        while i < b.events.len()
            invariant
                i <= b.events.len(),
                off == av.events.len(),
                bv == b@,
                shiftable(bv, off as nat),
                view_events(events@) == av.events + bv.events.take(i as int).map_values(
                    |e: EventView| shift_event(e, off as nat),
                ),
            decreases b.events.len() - i,
        {
            let e = &b.events[i];
            assert(bv.events[i as int].id + off <= usize::MAX);
            let j = match e.justifier {
                Some(j) => {
                    assert(bv.events[i as int].justifier is Some);
                    Some(j + off)
                },
                None => None,
            };
            let ne = Event {
                id: e.id + off,
                polarity: e.polarity,
                kind: e.kind,
                label: e.label.clone(),
                justifier: j,
            };
            proof {
                lemma_view_events_push(events@, ne);
                assert(bv.events.take(i + 1).map_values(|e: EventView| shift_event(e, off as nat))
                    =~= bv.events.take(i as int).map_values(
                    |e: EventView| shift_event(e, off as nat),
                ).push(shift_event(bv.events[i as int], off as nat)));
            }
            events.push(ne);
            i = i + 1;
        }
        assert(bv.events.take(i as int) =~= bv.events);
        let mut i: usize = 0;
        while i < b.enabling.len()
            invariant
                i <= b.enabling.len(),
                off == av.events.len(),
                bv == b@,
                shiftable(bv, off as nat),
                enabling@ == av.enabling + bv.enabling.take(i as int).map_values(
                    |e: (usize, usize)| shift_edge(e, off as nat),
                ),
            decreases b.enabling.len() - i,
        {
            let (s, t) = b.enabling[i];
            assert(bv.enabling[i as int].0 + off <= usize::MAX);
            enabling.push((s + off, t + off));
            assert(bv.enabling.take(i + 1).map_values(|e: (usize, usize)| shift_edge(e, off as nat))
                =~= bv.enabling.take(i as int).map_values(
                |e: (usize, usize)| shift_edge(e, off as nat),
            ).push(shift_edge(bv.enabling[i as int], off as nat)));
            i = i + 1;
        }
        assert(bv.enabling.take(i as int) =~= bv.enabling);
        Arena { name, events, enabling }
    }
}

/// Ids of the events without a justifier.
fn initial_moves_of(events: &Vec<Event>) -> (r: Vec<usize>)
    ensures
        r@ == initial_ids(view_events(events@)),
{
    assert(view_events(events@).subrange(0, events@.len() as int) =~= view_events(events@));
    initial_ids_from(events, 0)
}

/// Ids of the events at positions `from..` that have no justifier.
fn initial_ids_from(events: &Vec<Event>, from: usize) -> (r: Vec<usize>)
    requires
        from <= events.len(),
    ensures
        r@ == initial_ids(view_events(events@).subrange(from as int, events@.len() as int)),
{
    let ghost vs = view_events(events@).subrange(from as int, events@.len() as int);
    let mut r: Vec<usize> = Vec::new();
    let mut i: usize = from;
    while i < events.len()
        invariant
            from <= i <= events.len(),
            vs == view_events(events@).subrange(from as int, events@.len() as int),
            r@ == initial_ids(vs.take(i - from)),
        decreases events.len() - i,
    {
        assert(vs.take(i - from + 1).drop_last() =~= vs.take(i - from));
        assert(vs.take(i - from + 1).last() == events@[i as int]@);
        if events[i].justifier.is_none() {
            r.push(events[i].id);
        }
        i = i + 1;
    }
    assert(vs.take(i - from) =~= vs);
    r
}

/// Unit: one Opponent question, one Player answer.
pub fn arena_unit() -> (r: Arena)
    ensures
        r@ == unit_spec(),
{
    let mut a = Arena::new("U");
    let q = a.add_event(Polarity::Opponent, MoveKind::Question, "q", None);
    a.add_event(Polarity::Player, MoveKind::Answer, "*", Some(q));
    assert(a@.events =~= unit_spec().events);
    assert(a@.enabling =~= unit_spec().enabling);
    a
}

/// Bool: an Opponent question, Player answers `tt` or `ff`.
pub fn arena_bool() -> (r: Arena)
    ensures
        r@ == bool_spec(),
{
    let mut a = Arena::new("B");
    let q = a.add_event(Polarity::Opponent, MoveKind::Question, "q", None);
    a.add_event(Polarity::Player, MoveKind::Answer, "tt", Some(q));
    a.add_event(Polarity::Player, MoveKind::Answer, "ff", Some(q));
    assert(a@.events =~= bool_spec().events);
    assert(a@.enabling =~= bool_spec().enabling);
    a
}

/// Nat: an Opponent question, Player answers with a number from 0 to 3.
pub fn arena_nat() -> (r: Arena)
    ensures
        r@ == nat_spec(),
{
    let mut a = Arena::new("N");
    let q = a.add_event(Polarity::Opponent, MoveKind::Question, "q", None);
    a.add_event(Polarity::Player, MoveKind::Answer, "0", Some(q));
    a.add_event(Polarity::Player, MoveKind::Answer, "1", Some(q));
    a.add_event(Polarity::Player, MoveKind::Answer, "2", Some(q));
    a.add_event(Polarity::Player, MoveKind::Answer, "3", Some(q));
    assert(a@.events =~= nat_spec().events);
    assert(a@.enabling =~= nat_spec().enabling);
    a
}

/// A reference cell: `read`/`val` and `write`/`ok` question-answer pairs.
pub fn arena_ref() -> (r: Arena)
    ensures
        r@ == ref_spec(),
{
    let mut a = Arena::new("ref");
    let q_read = a.add_event(Polarity::Opponent, MoveKind::Question, "read", None);
    a.add_event(Polarity::Player, MoveKind::Answer, "val", Some(q_read));
    let q_write = a.add_event(Polarity::Opponent, MoveKind::Question, "write", None);
    a.add_event(Polarity::Player, MoveKind::Answer, "ok", Some(q_write));
    assert(a@.events =~= ref_spec().events);
    assert(a@.enabling =~= ref_spec().enabling);
    a
}

/// An event of a standard arena, whose id is its position.
pub open spec fn ev(id: usize, polarity: Polarity, kind: MoveKind, label: Seq<char>, justifier: Option<usize>) -> EventView {
    EventView { id, polarity, kind, label, justifier }
}

pub open spec fn unit_spec() -> ArenaView {
    ArenaView {
        name: "U"@,
        events: seq![
            ev(0, Polarity::Opponent, MoveKind::Question, "q"@, None),
            ev(1, Polarity::Player, MoveKind::Answer, "*"@, Some(0)),
        ],
        enabling: seq![(0usize, 1usize)],
    }
}

pub open spec fn bool_spec() -> ArenaView {
    ArenaView {
        name: "B"@,
        events: seq![
            ev(0, Polarity::Opponent, MoveKind::Question, "q"@, None),
            ev(1, Polarity::Player, MoveKind::Answer, "tt"@, Some(0)),
            ev(2, Polarity::Player, MoveKind::Answer, "ff"@, Some(0)),
        ],
        enabling: seq![(0usize, 1usize), (0usize, 2usize)],
    }
}

pub open spec fn nat_spec() -> ArenaView {
    ArenaView {
        name: "N"@,
        events: seq![
            ev(0, Polarity::Opponent, MoveKind::Question, "q"@, None),
            ev(1, Polarity::Player, MoveKind::Answer, "0"@, Some(0)),
            ev(2, Polarity::Player, MoveKind::Answer, "1"@, Some(0)),
            ev(3, Polarity::Player, MoveKind::Answer, "2"@, Some(0)),
            ev(4, Polarity::Player, MoveKind::Answer, "3"@, Some(0)),
        ],
        enabling: seq![(0usize, 1usize), (0usize, 2usize), (0usize, 3usize), (0usize, 4usize)],
    }
}

pub open spec fn ref_spec() -> ArenaView {
    ArenaView {
        name: "ref"@,
        events: seq![
            ev(0, Polarity::Opponent, MoveKind::Question, "read"@, None),
            ev(1, Polarity::Player, MoveKind::Answer, "val"@, Some(0)),
            ev(2, Polarity::Opponent, MoveKind::Question, "write"@, None),
            ev(3, Polarity::Player, MoveKind::Answer, "ok"@, Some(2)),
        ],
        enabling: seq![(0usize, 1usize), (2usize, 3usize)],
    }
}

/// Every justifier names an event placed earlier in the arena.
pub open spec fn justifiers_backward(a: ArenaView) -> bool {
    forall|e: int| 0 <= e < a.events.len() && #[trigger] a.events[e].justifier is Some ==> a.events[e].justifier->0 < e
}

/// Every event id, justifier and edge end of the arena is below `k`.
pub open spec fn bounded_by(a: ArenaView, k: nat) -> bool {
    &&& forall|i: int| 0 <= i < a.events.len() ==> #[trigger] a.events[i].id < k
    &&& forall|i: int| 0 <= i < a.events.len() && #[trigger] a.events[i].justifier is Some ==> a.events[i].justifier->0 < k
    &&& forall|i: int| 0 <= i < a.enabling.len() ==> #[trigger] a.enabling[i].0 < k && a.enabling[i].1 < k
}

/// An arena whose numbers stay below `k` can be moved `off` places along
/// while `k + off` fits in `usize`.
pub proof fn lemma_bounded_shiftable(a: ArenaView, k: nat, off: nat)
    requires
        bounded_by(a, k),
        k + off <= usize::MAX,
    ensures
        shiftable(a, off),
{
}

proof fn lemma_initial_ids_bounded(es: Seq<EventView>, k: nat)
    requires
        forall|i: int| 0 <= i < es.len() ==> #[trigger] es[i].id < k,
    ensures
        forall|i: int| 0 <= i < initial_ids(es).len() ==> #[trigger] initial_ids(es)[i] < k,
    decreases es.len(),
{
    if es.len() > 0 {
        assert forall|i: int| 0 <= i < es.drop_last().len() implies #[trigger] es.drop_last()[i].id < k by {
            assert(es.drop_last()[i] == es[i]);
        }
        lemma_initial_ids_bounded(es.drop_last(), k);
        let rest = initial_ids(es.drop_last());
        assert(es.last().id < k);
        assert forall|i: int| 0 <= i < initial_ids(es).len() implies #[trigger] initial_ids(es)[i] < k by {
            if i < rest.len() {
                assert(initial_ids(es)[i] == rest[i]);
            }
        }
    }
}

proof fn lemma_cross_edges_bounded(cs: Seq<usize>, ds: Seq<usize>, k: nat)
    requires
        forall|i: int| 0 <= i < cs.len() ==> #[trigger] cs[i] < k,
        forall|i: int| 0 <= i < ds.len() ==> #[trigger] ds[i] < k,
    ensures
        forall|i: int| 0 <= i < cross_edges(cs, ds).len() ==> (#[trigger] cross_edges(cs, ds)[i]).0 < k
            && cross_edges(cs, ds)[i].1 < k,
    decreases cs.len(),
{
    if cs.len() > 0 {
        assert forall|i: int| 0 <= i < cs.drop_last().len() implies #[trigger] cs.drop_last()[i] < k by {
            assert(cs.drop_last()[i] == cs[i]);
        }
        lemma_cross_edges_bounded(cs.drop_last(), ds, k);
        let front = cross_edges(cs.drop_last(), ds);
        let back = ds.map_values(|d: usize| (d, cs.last()));
        assert forall|i: int| 0 <= i < cross_edges(cs, ds).len() implies (#[trigger] cross_edges(cs, ds)[i]).0 < k
            && cross_edges(cs, ds)[i].1 < k by {
            if i >= front.len() {
                assert(cross_edges(cs, ds)[i] == back[i - front.len()]);
            } else {
                assert(cross_edges(cs, ds)[i] == front[i]);
            }
        }
    }
}

/// A function arena of arenas whose numbers stay below their sizes has
/// numbers below its own size, and keeps justifiers pointing backward.
pub proof fn lemma_function_arena_shape(d: ArenaView, c: ArenaView)
    requires
        bounded_by(d, d.events.len()),
        bounded_by(c, c.events.len()),
        d.events.len() + c.events.len() <= usize::MAX,
    ensures
        function_arena_spec(d, c).events.len() == d.events.len() + c.events.len(),
        bounded_by(function_arena_spec(d, c), d.events.len() + c.events.len()),
        justifiers_backward(d) && justifiers_backward(c) ==> justifiers_backward(function_arena_spec(d, c)),
{
    let off = d.events.len();
    let k = d.events.len() + c.events.len();
    let f = function_arena_spec(d, c);
    let shifted = c.events.map_values(|e: EventView| shift_event(e, off));
    let flipped_d = d.events.map_values(|e: EventView| flip_event(e));
    assert forall|i: int| 0 <= i < shifted.len() implies #[trigger] shifted[i].id < k by {}
    assert forall|i: int| 0 <= i < d.events.len() implies #[trigger] d.events[i].id < k by {}
    lemma_initial_ids_bounded(shifted, k);
    lemma_initial_ids_bounded(d.events, k);
    lemma_cross_edges_bounded(initial_ids(shifted), initial_ids(d.events), k);
    assert forall|i: int| 0 <= i < f.events.len() implies #[trigger] f.events[i].id < k by {
        if i < off {
            assert(f.events[i] == flipped_d[i]);
        } else {
            assert(f.events[i] == shifted[i - off]);
        }
    }
    assert forall|i: int| 0 <= i < f.events.len() && #[trigger] f.events[i].justifier is Some implies f.events[i].justifier->0 < k by {
        if i < off {
            assert(f.events[i] == flipped_d[i]);
        } else {
            assert(f.events[i] == shifted[i - off]);
            assert(c.events[i - off].justifier is Some);
        }
    }
    let e1 = d.enabling;
    let e2 = c.enabling.map_values(|e: (usize, usize)| shift_edge(e, off));
    let e3 = cross_edges(initial_ids(shifted), initial_ids(d.events));
    assert(f.enabling == e1 + e2 + e3);
    assert forall|i: int| 0 <= i < f.enabling.len() implies #[trigger] f.enabling[i].0 < k && f.enabling[i].1 < k by {
        if i < e1.len() {
            assert(f.enabling[i] == e1[i]);
        } else if i < e1.len() + e2.len() {
            assert(f.enabling[i] == e2[i - e1.len()]);
        } else {
            assert(f.enabling[i] == e3[i - e1.len() - e2.len()]);
        }
    }
    if justifiers_backward(d) && justifiers_backward(c) {
        assert forall|i: int| 0 <= i < f.events.len() && #[trigger] f.events[i].justifier is Some implies f.events[i].justifier->0 < i by {
            if i < off {
                assert(f.events[i] == flipped_d[i]);
            } else {
                assert(f.events[i] == shifted[i - off]);
                assert(c.events[i - off].justifier is Some);
            }
        }
    }
}

/// A product of arenas whose numbers stay below their sizes has numbers
/// below its own size, and keeps justifiers pointing backward.
pub proof fn lemma_product_arena_shape(a: ArenaView, b: ArenaView)
    requires
        bounded_by(a, a.events.len()),
        bounded_by(b, b.events.len()),
        a.events.len() + b.events.len() <= usize::MAX,
    ensures
        product_arena_spec(a, b).events.len() == a.events.len() + b.events.len(),
        bounded_by(product_arena_spec(a, b), a.events.len() + b.events.len()),
        justifiers_backward(a) && justifiers_backward(b) ==> justifiers_backward(product_arena_spec(a, b)),
{
    let off = a.events.len();
    let k = a.events.len() + b.events.len();
    let p = product_arena_spec(a, b);
    let shifted = b.events.map_values(|e: EventView| shift_event(e, off));
    assert forall|i: int| 0 <= i < p.events.len() implies #[trigger] p.events[i].id < k by {
        if i >= off {
            assert(p.events[i] == shifted[i - off]);
        }
    }
    assert forall|i: int| 0 <= i < p.events.len() && #[trigger] p.events[i].justifier is Some implies p.events[i].justifier->0 < k by {
        if i >= off {
            assert(p.events[i] == shifted[i - off]);
            assert(b.events[i - off].justifier is Some);
        }
    }
    let e2 = b.enabling.map_values(|e: (usize, usize)| shift_edge(e, off));
    assert(p.enabling == a.enabling + e2);
    assert forall|i: int| 0 <= i < p.enabling.len() implies #[trigger] p.enabling[i].0 < k && p.enabling[i].1 < k by {
        if i >= a.enabling.len() {
            let j = i - a.enabling.len();
            assert(p.enabling[i] == e2[j]);
            assert(b.enabling[j].0 < b.events.len() && b.enabling[j].1 < b.events.len());
            assert(e2[j] == shift_edge(b.enabling[j], off));
            assert(p.enabling[i].0 < k && p.enabling[i].1 < k);
        } else {
            assert(p.enabling[i] == a.enabling[i]);
            assert(a.enabling[i].0 < a.events.len() && a.enabling[i].1 < a.events.len());
        }
    }
    if justifiers_backward(a) && justifiers_backward(b) {
        assert forall|i: int| 0 <= i < p.events.len() && #[trigger] p.events[i].justifier is Some implies p.events[i].justifier->0 < i by {
            if i >= off {
                assert(p.events[i] == shifted[i - off]);
                assert(b.events[i - off].justifier is Some);
            }
        }
    }
}

/// The four standard arenas number their events by position, stay within
/// their size and have justifiers that point backward.
pub proof fn lemma_standard_arenas()
    ensures
        bounded_by(unit_spec(), 2) && justifiers_backward(unit_spec()) && unit_spec().events.len() == 2,
        bounded_by(bool_spec(), 3) && justifiers_backward(bool_spec()) && bool_spec().events.len() == 3,
        bounded_by(nat_spec(), 5) && justifiers_backward(nat_spec()) && nat_spec().events.len() == 5,
        bounded_by(ref_spec(), 4) && justifiers_backward(ref_spec()) && ref_spec().events.len() == 4,
{
}

/// Flipping a polarity twice gives it back, and flipping always changes it.
pub proof fn lemma_flip_involution(p: Polarity)
    ensures
        flipped(flipped(p)) == p,
        flipped(p) != p,
{
}

/// The function arena `d -> c` holds the events of `d` with their polarity
/// reversed, then those of `c` with their polarity kept; kinds and labels
/// are unchanged, and each initial move of the codomain is enabled by each
/// initial move of the domain.
pub proof fn lemma_function_arena_polarity(d: ArenaView, c: ArenaView)
    ensures
        function_arena_spec(d, c).events.len() == d.events.len() + c.events.len(),
        forall|i: int|
            0 <= i < d.events.len() ==> {
                let e = #[trigger] function_arena_spec(d, c).events[i];
                &&& e.polarity == flipped(d.events[i].polarity)
                &&& e.kind == d.events[i].kind
                &&& e.label == d.events[i].label
            },
        forall|i: int|
            0 <= i < c.events.len() ==> {
                let e = #[trigger] function_arena_spec(d, c).events[d.events.len() + i];
                &&& e.polarity == c.events[i].polarity
                &&& e.kind == c.events[i].kind
                &&& e.label == c.events[i].label
            },
{
    let f = function_arena_spec(d, c);
    let off = d.events.len();
    let shifted = c.events.map_values(|e: EventView| shift_event(e, off));
    let flipped_d = d.events.map_values(|e: EventView| flip_event(e));
    assert forall|i: int| 0 <= i < d.events.len() implies {
        let e = #[trigger] f.events[i];
        &&& e.polarity == flipped(d.events[i].polarity)
        &&& e.kind == d.events[i].kind
        &&& e.label == d.events[i].label
    } by {
        assert(f.events[i] == flipped_d[i]);
    }
    assert forall|i: int| 0 <= i < c.events.len() implies {
        let e = #[trigger] f.events[off + i];
        &&& e.polarity == c.events[i].polarity
        &&& e.kind == c.events[i].kind
        &&& e.label == c.events[i].label
    } by {
        assert(f.events[off + i] == shifted[i]);
    }
}

/// The product `a x b` holds the events of `a` unchanged, then those of
/// `b` with their polarity, kind and label kept; when both arenas keep
/// their numbers below their sizes, no edge joins the two parts.
pub proof fn lemma_product_arena_combines(a: ArenaView, b: ArenaView)
    requires
        bounded_by(a, a.events.len()),
        bounded_by(b, b.events.len()),
        a.events.len() + b.events.len() <= usize::MAX,
    ensures
        product_arena_spec(a, b).events.len() == a.events.len() + b.events.len(),
        forall|i: int| 0 <= i < a.events.len() ==> #[trigger] product_arena_spec(a, b).events[i] == a.events[i],
        forall|i: int|
            0 <= i < b.events.len() ==> {
                let e = #[trigger] product_arena_spec(a, b).events[a.events.len() + i];
                &&& e.polarity == b.events[i].polarity
                &&& e.kind == b.events[i].kind
                &&& e.label == b.events[i].label
            },
        forall|i: int|
            0 <= i < product_arena_spec(a, b).enabling.len() ==> {
                let e = #[trigger] product_arena_spec(a, b).enabling[i];
                (e.0 < a.events.len()) == (e.1 < a.events.len())
            },
{
    let p = product_arena_spec(a, b);
    let off = a.events.len();
    let shifted = b.events.map_values(|e: EventView| shift_event(e, off));
    let e2 = b.enabling.map_values(|e: (usize, usize)| shift_edge(e, off));
    assert(p.enabling == a.enabling + e2);
    assert forall|i: int| 0 <= i < b.events.len() implies {
        let e = #[trigger] p.events[off + i];
        &&& e.polarity == b.events[i].polarity
        &&& e.kind == b.events[i].kind
        &&& e.label == b.events[i].label
    } by {
        assert(p.events[off + i] == shifted[i]);
    }
    assert forall|i: int| 0 <= i < p.enabling.len() implies {
        let e = #[trigger] p.enabling[i];
        (e.0 < a.events.len()) == (e.1 < a.events.len())
    } by {
        if i < a.enabling.len() {
            assert(p.enabling[i] == a.enabling[i]);
            assert(a.enabling[i].0 < a.events.len() && a.enabling[i].1 < a.events.len());
        } else {
            let j = i - a.enabling.len();
            assert(p.enabling[i] == e2[j]);
            assert(b.enabling[j].0 < b.events.len() && b.enabling[j].1 < b.events.len());
        }
    }
}

/// A copy of the arena.
pub fn copy_arena(a: &Arena) -> (r: Arena)
    ensures
        r@ == a@,
{
    let mut events: Vec<Event> = Vec::new();
    let mut i: usize = 0;
    while i < a.events.len()
        invariant
            i <= a.events@.len(),
            view_events(events@) == view_events(a.events@.take(i as int)),
        decreases a.events@.len() - i,
    {
        let e = &a.events[i];
        let copy = Event { id: e.id, polarity: e.polarity, kind: e.kind, label: e.label.clone(), justifier: e.justifier };
        proof {
            lemma_view_events_push(events@, copy);
            assert(a.events@.take(i + 1) =~= a.events@.take(i as int).push(a.events@[i as int]));
            lemma_view_events_push(a.events@.take(i as int), a.events@[i as int]);
        }
        events.push(copy);
        i = i + 1;
    }
    assert(a.events@.take(i as int) =~= a.events@);
    let mut enabling: Vec<(usize, usize)> = Vec::new();
    let mut j: usize = 0;
    while j < a.enabling.len()
        invariant
            j <= a.enabling@.len(),
            enabling@ == a.enabling@.take(j as int),
        decreases a.enabling@.len() - j,
    {
        enabling.push(a.enabling[j]);
        assert(a.enabling@.take(j + 1) =~= a.enabling@.take(j as int).push(a.enabling@[j as int]));
        j = j + 1;
    }
    assert(a.enabling@.take(j as int) =~= a.enabling@);
    Arena { name: a.name.clone(), events, enabling }
}

} // verus!
