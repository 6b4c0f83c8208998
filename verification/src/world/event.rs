//! Game events and a bus that hands each event to the handlers subscribed
//! to its kind.

use vstd::prelude::*;

verus! {

/// A player attacked another.
pub struct PlayerAttackEvent {
    pub attacker_id: u64,
    pub defender_id: u64,
}

/// A player was killed.
pub struct PlayerKilledEvent {
    pub victim_id: u64,
    pub killer_id: u64,
}

/// A player performed a skill.
pub struct SkillPerformedEvent {
    pub player_id: u64,
    pub skill_name: String,
}

/// The kinds of events.
#[derive(Clone, Copy, PartialEq, Eq, Structural, Debug)]
pub enum EventKind {
    PlayerAttack,
    PlayerKilled,
    SkillPerformed,
}

/// An event as handlers receive it.
pub enum GameEvent {
    PlayerAttack(PlayerAttackEvent),
    PlayerKilled(PlayerKilledEvent),
    SkillPerformed(SkillPerformedEvent),
}

/// An event type: its kind, and the event as handlers receive it.
pub trait Event: Sized {
    spec fn spec_kind() -> EventKind;

    /// The event as handlers receive it.
    spec fn as_event(self) -> GameEvent;

    fn kind() -> (k: EventKind)
        ensures
            k == Self::spec_kind();

    fn into_event(self) -> (e: GameEvent)
        ensures
            e == self.as_event();
}

impl Event for PlayerAttackEvent {
    open spec fn spec_kind() -> EventKind { EventKind::PlayerAttack }

    open spec fn as_event(self) -> GameEvent { GameEvent::PlayerAttack(self) }

    fn kind() -> (k: EventKind) { EventKind::PlayerAttack }

    fn into_event(self) -> (e: GameEvent) { GameEvent::PlayerAttack(self) }
}

impl Event for PlayerKilledEvent {
    open spec fn spec_kind() -> EventKind { EventKind::PlayerKilled }

    open spec fn as_event(self) -> GameEvent { GameEvent::PlayerKilled(self) }

    fn kind() -> (k: EventKind) { EventKind::PlayerKilled }

    fn into_event(self) -> (e: GameEvent) { GameEvent::PlayerKilled(self) }
}

impl Event for SkillPerformedEvent {
    open spec fn spec_kind() -> EventKind { EventKind::SkillPerformed }

    open spec fn as_event(self) -> GameEvent { GameEvent::SkillPerformed(self) }

    fn kind() -> (k: EventKind) { EventKind::SkillPerformed }

    fn into_event(self) -> (e: GameEvent) { GameEvent::SkillPerformed(self) }
}

/// Something that reacts to events; implemented by the game's subsystems.
/// Each implementation says, by `handles`, which states handling an event
/// may leave it in.
pub trait EventHandler: Sized {
    /// Whether `next` is a state this handler may be in after handling `event`.
    spec fn handles(&self, event: GameEvent, next: Self) -> bool;

    fn handle(&mut self, event: &GameEvent)
        ensures
            old(self).handles(*event, *final(self));
}

/// The handlers of each event kind, in the order they subscribed.
pub struct EventBus<H: EventHandler> {
    subscribers: Vec<(EventKind, Vec<H>)>,
}

/// The handlers subscribed to `kind`, in order.
pub open spec fn handlers_in<H>(subs: Seq<(EventKind, Vec<H>)>, kind: EventKind) -> Seq<H>
    decreases subs.len(),
{
    if subs.len() == 0 {
        seq![]
    } else {
        handlers_in(subs.drop_last(), kind) + (if subs.last().0 == kind { subs.last().1@ } else { seq![] })
    }
}

/// Each kind has at most one entry.
pub open spec fn kinds_distinct<H>(subs: Seq<(EventKind, Vec<H>)>) -> bool {
    forall|a: int, b: int| 0 <= a < b < subs.len() ==> subs[a].0 != subs[b].0
}

/// Without an entry for `kind`, no handler is subscribed to it.
proof fn lemma_handlers_absent<H>(subs: Seq<(EventKind, Vec<H>)>, kind: EventKind)
    requires
        forall|j: int| 0 <= j < subs.len() ==> subs[j].0 != kind,
    ensures
        handlers_in(subs, kind) == Seq::<H>::empty(),
    decreases subs.len(),
{
    if subs.len() > 0 {
        lemma_handlers_absent(subs.drop_last(), kind);
        assert(handlers_in(subs, kind) =~= Seq::<H>::empty());
    }
}

/// The handlers of a kind are those of its one entry.
proof fn lemma_handlers_at<H>(subs: Seq<(EventKind, Vec<H>)>, i: int)
    requires
        0 <= i < subs.len(),
        kinds_distinct(subs),
    ensures
        handlers_in(subs, subs[i].0) == subs[i].1@,
    decreases subs.len(),
{
    let k = subs[i].0;
    let d = subs.drop_last();
    if i == subs.len() - 1 {
        assert forall|j: int| 0 <= j < d.len() implies d[j].0 != k by {
            assert(subs[j].0 != subs[i].0);
        }
        lemma_handlers_absent(d, k);
        assert(handlers_in(subs, k) =~= subs[i].1@);
    } else {
        assert(kinds_distinct(d));
        lemma_handlers_at(d, i);
        assert(d[i] == subs[i]);
        assert(subs.last().0 != k);
        assert(handlers_in(subs, k) =~= subs[i].1@);
    }
}

/// Changing only the handlers of entry `i` changes no other kind's handlers.
proof fn lemma_handlers_other<H>(s0: Seq<(EventKind, Vec<H>)>, s1: Seq<(EventKind, Vec<H>)>, i: int, kind: EventKind)
    requires
        0 <= i < s0.len(),
        s1.len() == s0.len(),
        forall|j: int| 0 <= j < s0.len() && j != i ==> s1[j] == s0[j],
        s1[i].0 == s0[i].0,
        kind != s0[i].0,
    ensures
        handlers_in(s1, kind) == handlers_in(s0, kind),
    decreases s0.len(),
{
    if i < s0.len() - 1 {
        lemma_handlers_other(s0.drop_last(), s1.drop_last(), i, kind);
        assert(s1.last() == s0.last());
    } else {
        assert(s1.drop_last() =~= s0.drop_last());
    }
}

impl<H: EventHandler> EventBus<H> {
    #[verifier::type_invariant]
    spec fn one_entry_per_kind(self) -> bool {
        kinds_distinct(self.subscribers@)
    }

    /// The handlers subscribed to each kind, in the order they subscribed.
    pub closed spec fn handlers(&self, kind: EventKind) -> Seq<H> {
        handlers_in(self.subscribers@, kind)
    }

    /// The number of handlers subscribed to each kind.
    pub open spec fn count(&self, kind: EventKind) -> nat {
        self.handlers(kind).len()
    }

    /// A bus with no subscribers.
    pub fn new() -> (b: EventBus<H>)
        ensures
            forall|k: EventKind| b.handlers(k) == Seq::<H>::empty(),
    {
        EventBus { subscribers: Vec::new() }
    }

    /// Subscribes a handler to the events of type `E`, after those already there.
    pub fn subscribe<E: Event>(&mut self, handler: H)
        ensures
            final(self).handlers(E::spec_kind()) == old(self).handlers(E::spec_kind()).push(handler),
            forall|k: EventKind| k != E::spec_kind() ==> final(self).handlers(k) == old(self).handlers(k),
    {
        proof { use_type_invariant(&*self); }
        let kind = E::kind();
        let ghost s0 = self.subscribers@;
        let mut i: usize = 0;
        while i < self.subscribers.len() && !(self.subscribers[i].0 == kind)
            invariant
                i <= self.subscribers.len(),
                self.subscribers@ == s0,
                forall|j: int| 0 <= j < i ==> s0[j].0 != kind,
            decreases self.subscribers.len() - i,
        {
            i = i + 1;
        }
        if i < self.subscribers.len() {
            proof { lemma_handlers_at(s0, i as int); }
            let mut entries = Vec::new();
            std::mem::swap(&mut entries, &mut self.subscribers);
            let (k, mut hs) = entries.remove(i);
            hs.push(handler);
            entries.insert(i, (k, hs));
            proof {
                let s1 = entries@;
                assert forall|a: int, b: int| 0 <= a < b < s1.len() implies s1[a].0 != s1[b].0 by {
                    assert(s1[a].0 == s0[a].0 && s1[b].0 == s0[b].0);
                }
                lemma_handlers_at(s1, i as int);
                assert forall|k2: EventKind| k2 != kind implies handlers_in(s1, k2) == handlers_in(s0, k2) by {
                    lemma_handlers_other(s0, s1, i as int, k2);
                }
            }
            self.subscribers = entries;
        } else {
            let mut hs: Vec<H> = Vec::new();
            hs.push(handler);
            let mut entries = Vec::new();
            std::mem::swap(&mut entries, &mut self.subscribers);
            entries.push((kind, hs));
            proof {
                let s1 = entries@;
                assert(s1.drop_last() =~= s0);
                lemma_handlers_absent(s0, kind);
                assert(handlers_in(s1, kind) =~= handlers_in(s0, kind).push(handler));
            }
            self.subscribers = entries;
        }
    }

    /// Hands an event to every handler subscribed to its kind, in order.
    pub fn post<E: Event>(&mut self, event: E)
        ensures
            final(self).handlers(E::spec_kind()).len() == old(self).handlers(E::spec_kind()).len(),
            forall|j: int| 0 <= j < old(self).handlers(E::spec_kind()).len() ==>
                #[trigger] old(self).handlers(E::spec_kind())[j].handles(event.as_event(), final(self).handlers(E::spec_kind())[j]),
            forall|k: EventKind| k != E::spec_kind() ==> final(self).handlers(k) == old(self).handlers(k),
    {
        proof { use_type_invariant(&*self); }
        let kind = E::kind();
        let ghost ev0 = event.as_event();
        let ev = event.into_event();
        let ghost s0 = self.subscribers@;
        let mut i: usize = 0;
        while i < self.subscribers.len() && !(self.subscribers[i].0 == kind)
            invariant
                i <= self.subscribers.len(),
                self.subscribers@ == s0,
                forall|j: int| 0 <= j < i ==> s0[j].0 != kind,
            decreases self.subscribers.len() - i,
        {
            i = i + 1;
        }
        if i < self.subscribers.len() {
            proof { lemma_handlers_at(s0, i as int); }
            let mut entries = Vec::new();
            std::mem::swap(&mut entries, &mut self.subscribers);
            let (k, mut hs) = entries.remove(i);
            let ghost h0 = hs@;
            let n = hs.len();
            let mut j: usize = 0;
            while j < n
                invariant
                    j <= n,
                    n == h0.len(),
                    hs@.len() == n,
                    forall|q: int| 0 <= q < j ==> #[trigger] h0[q].handles(ev0, hs@[q]),
                    forall|q: int| j <= q < n ==> hs@[q] == h0[q],
                    ev == ev0,
                decreases n - j,
            {
                let mut h = hs.remove(j);
                h.handle(&ev);
                hs.insert(j, h);
                j = j + 1;
            }
            entries.insert(i, (k, hs));
            proof {
                let s1 = entries@;
                assert forall|a: int, b: int| 0 <= a < b < s1.len() implies s1[a].0 != s1[b].0 by {
                    assert(s1[a].0 == s0[a].0 && s1[b].0 == s0[b].0);
                }
                lemma_handlers_at(s1, i as int);
                assert forall|k2: EventKind| k2 != kind implies handlers_in(s1, k2) == handlers_in(s0, k2) by {
                    lemma_handlers_other(s0, s1, i as int, k2);
                }
            }
            self.subscribers = entries;
        } else {
            proof { lemma_handlers_absent(s0, kind); }
        }
    }
}

} // verus!
