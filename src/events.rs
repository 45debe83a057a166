//! Decoding notification records and routing them to subscribed reactions.
use vstd::prelude::*;
use crate::text::{chars_of, find, find_in, lemma_find_first, occurs_at, str_eq, text_of};

verus! {

/// The kind of a notification record.
#[derive(Debug, Clone, Copy, PartialEq, Eq, Structural, Hash)]
pub enum Event {
    ActiveWindow,
    ActiveWindowV2,
    ConfigReloaded,
    /// A name outside the known vocabulary; never routed.
    Unrecognized,
}

impl Event {
    /// The kind named by a record's name.
    pub open spec fn spec_from(name: Seq<char>) -> Event {
        if name == "activewindow"@ {
            Event::ActiveWindow
        } else if name == "activewindowv2"@ {
            Event::ActiveWindowV2
        } else if name == "configreloaded"@ {
            Event::ConfigReloaded
        } else {
            Event::Unrecognized
        }
    }

    /// The kind named by a record's name.
    pub fn from_str(event_name: &str) -> (r: Event)
        ensures
            r == Self::spec_from(event_name@),
    {
        if str_eq(event_name, "activewindow") {
            Event::ActiveWindow
        } else if str_eq(event_name, "activewindowv2") {
            Event::ActiveWindowV2
        } else if str_eq(event_name, "configreloaded") {
            Event::ConfigReloaded
        } else {
            Event::Unrecognized
        }
    }
}

/// A record split at the first `>>` into its name and its payload.
pub open spec fn split_record(record: Seq<char>) -> Option<(Seq<char>, Seq<char>)> {
    match find(record, ">>"@) {
        Some(i) => Some((record.subrange(0, i), record.subrange(i + 2, record.len() as int))),
        None => None,
    }
}

/// Splits a record at the first `>>` into its name and its payload.
pub fn split_event(record: &str) -> (r: Option<(String, String)>)
    ensures
        match r {
            Some((name, payload)) => split_record(record@) == Some((name@, payload@)),
            None => split_record(record@) is None,
        },
{
    let v = chars_of(record);
    let pat = chars_of(">>");
    proof {
        reveal_strlit(">>");
    }
    match find_in(&v, &pat) {
        Some(i) => {
            let total: usize = v.len();
            assert(i + 2 <= v@.len());
            let name = text_of(&v, 0, i);
            let payload = text_of(&v, i + 2, total);
            Some((name, payload))
        },
        None => None,
    }
}

/// The positions, in order, of the subscriptions to `kind`; none for an
/// unrecognized kind.
pub open spec fn handlers_for(subs: Seq<Event>, kind: Event) -> Seq<usize>
    decreases subs.len(),
{
    if subs.len() == 0 || kind is Unrecognized {
        Seq::empty()
    } else if subs.last() == kind {
        handlers_for(subs.drop_last(), kind).push((subs.len() - 1) as usize)
    } else {
        handlers_for(subs.drop_last(), kind)
    }
}

/// The reactions a record triggers, by subscription position, and the payload
/// they receive; no reaction for a record without `>>`.
pub open spec fn routed(subs: Seq<Event>, record: Seq<char>) -> (Seq<usize>, Seq<char>) {
    match split_record(record) {
        Some((name, payload)) => (handlers_for(subs, Event::spec_from(name)), payload),
        None => (Seq::empty(), Seq::empty()),
    }
}

/// A record `name>>payload`, whose name holds no `>`, reaches exactly the
/// reactions subscribed to the kind its name gives, in registration order,
/// with the payload unchanged; a name outside the vocabulary reaches none.
pub proof fn lemma_route_record(subs: Seq<Event>, name: Seq<char>, payload: Seq<char>)
    requires
        forall|j: int| 0 <= j < name.len() ==> name[j] != '>',
    ensures
        routed(subs, name + ">>"@ + payload) == (
            handlers_for(subs, Event::spec_from(name)),
            payload,
        ),
        Event::spec_from(name) is Unrecognized ==> routed(subs, name + ">>"@ + payload).0.len()
            == 0,
{
    reveal_strlit(">>");
    let r = name + ">>"@ + payload;
    let n = name.len() as int;
    assert(r.subrange(n, n + 2) =~= ">>"@);
    assert forall|j: int| 0 <= j < n implies !occurs_at(r, ">>"@, j) by {
        assert(r.subrange(j, j + 2)[0] == r[j]);
    }
    lemma_find_first(r, ">>"@, n);
    assert(r.subrange(0, n) =~= name);
    assert(r.subrange(n + 2, r.len() as int) =~= payload);
    if Event::spec_from(name) is Unrecognized {
        assert(handlers_for(subs, Event::spec_from(name)) =~= Seq::<usize>::empty());
    }
}

/// The table of subscriptions: the event kind of each reaction, in the order
/// the reactions were registered.
#[derive(Debug)]
pub struct EventRouter {
    pub subscriptions: Vec<Event>,
}

impl EventRouter {
    /// A table without subscriptions.
    pub fn new() -> (r: EventRouter)
        ensures
            r.subscriptions@ == Seq::<Event>::empty(),
    {
        EventRouter { subscriptions: Vec::new() }
    }

    /// Registers a reaction to `event`; returns its position.
    pub fn subscribe(&mut self, event: Event) -> (id: usize)
        ensures
            final(self).subscriptions@ == old(self).subscriptions@.push(event),
            id == old(self).subscriptions@.len(),
    {
        let id = self.subscriptions.len();
        self.subscriptions.push(event);
        id
    }

    /// The reactions a record triggers, in registration order, and their payload.
    pub fn process_events(&self, event: &str) -> (r: (Vec<usize>, String))
        ensures
            (r.0@, r.1@) == routed(self.subscriptions@, event@),
    {
        match split_event(event) {
            Some((name, payload)) => {
                let kind = Event::from_str(name.as_str());
                let mut ids: Vec<usize> = Vec::new();
                if kind != Event::Unrecognized {
                    let mut i: usize = 0;
                    while i < self.subscriptions.len()
                        invariant
                            i <= self.subscriptions@.len(),
                            !(kind is Unrecognized),
                            ids@ == handlers_for(self.subscriptions@.subrange(0, i as int), kind),
                        decreases self.subscriptions.len() - i,
                    {
                        if self.subscriptions[i] == kind {
                            ids.push(i);
                        }
                        proof {
                            let s = self.subscriptions@.subrange(0, i + 1);
                            assert(s.drop_last() =~= self.subscriptions@.subrange(0, i as int));
                            assert(s.last() == self.subscriptions@[i as int]);
                        }
                        i = i + 1;
                    }
                    assert(self.subscriptions@.subrange(0, i as int) =~= self.subscriptions@);
                } else {
                    assert(ids@ =~= handlers_for(self.subscriptions@, kind));
                }
                (ids, payload)
            },
            None => (Vec::new(), String::new()),
        }
    }
}

} // verus!
