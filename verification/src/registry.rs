//! The registry of the service locator: for each type that is registered or
//! retrieved, whether it has been retrieved.

use crate::locator::Event;
use vstd::prelude::*;

verus! {

/// The entries of a registry, in the order in which they were added.
pub type Registry = Seq<(Seq<char>, bool)>;

/// The registry has an entry for the name.
pub open spec fn registered(locators: Registry, name: Seq<char>) -> bool {
    exists|i: int| 0 <= i < locators.len() && (#[trigger] locators[i]).0 == name
}

/// The registry has an entry for the name that is marked as retrieved.
pub open spec fn retrieved(locators: Registry, name: Seq<char>) -> bool {
    exists|i: int| 0 <= i < locators.len() && #[trigger] locators[i] == (name, true)
}

/// No name has two entries in the registry.
pub open spec fn distinct_names(locators: Registry) -> bool {
    forall|i: int, j: int|
        0 <= i < j < locators.len() ==> (#[trigger] locators[i]).0 != (#[trigger] locators[j]).0
}

/// The entry of a name in a registry.
pub open spec fn entry_of(locators: Registry, name: Seq<char>) -> Option<int> {
    if registered(locators, name) {
        Some(choose|i: int| 0 <= i < locators.len() && (#[trigger] locators[i]).0 == name)
    } else {
        None
    }
}

/// The registry after one more event: a registration adds an entry if the
/// name has none; a retrieval marks the entry of the name, and adds a marked
/// one if the name has none.
pub open spec fn note_one(locators: Registry, event: Event) -> Registry {
    match event {
        Event::Register(name) => if registered(locators, name) {
            locators
        } else {
            locators.push((name, false))
        },
        Event::Get(name) => match entry_of(locators, name) {
            Some(at) => locators.update(at, (name, true)),
            None => locators.push((name, true)),
        },
        Event::Import => locators,
    }
}

/// The registry after the events of a file, one after the other.
pub open spec fn record_all(locators: Registry, found: Seq<Event>) -> Registry
    decreases found.len(),
{
    if found.len() == 0 {
        locators
    } else {
        note_one(record_all(locators, found.drop_last()), found.last())
    }
}

/// The state of a registry after one more event: a registration adds an
/// entry if the name has none, a retrieval marks the entry of the name and
/// adds it if need be.
pub open spec fn noted(
    before: Registry,
    event: Event,
    after: Registry,
) -> bool {
    &&& distinct_names(after)
    &&& forall|name: Seq<char>|
        #![trigger registered(after, name)]
        #![trigger retrieved(after, name)]
        {
            &&& registered(after, name) <==> registered(before, name) || event == Event::Register(
                name,
            ) || event == Event::Get(name)
            &&& retrieved(after, name) <==> retrieved(before, name) || event == Event::Get(name)
        }
}

/// What a registry has to be once the events were recorded in it.
pub open spec fn recorded(
    before: Registry,
    found: Seq<Event>,
    after: Registry,
) -> bool {
    &&& distinct_names(after)
    &&& forall|name: Seq<char>|
        #![trigger registered(after, name)]
        #![trigger retrieved(after, name)]
        {
            &&& registered(after, name) <==> registered(before, name) || found.contains(
                Event::Register(name),
            ) || found.contains(Event::Get(name))
            &&& retrieved(after, name) <==> retrieved(before, name) || found.contains(
                Event::Get(name),
            )
        }
}

/// A registry with one more entry, of a name that had none.
pub proof fn lemma_pushed(before: Registry, entry: (Seq<char>, bool))
    requires
        distinct_names(before),
        !registered(before, entry.0),
    ensures
        distinct_names(before.push(entry)),
        forall|name: Seq<char>|
            #![trigger registered(before.push(entry), name)]
            registered(before.push(entry), name) <==> registered(before, name) || name == entry.0,
        forall|name: Seq<char>|
            #![trigger retrieved(before.push(entry), name)]
            retrieved(before.push(entry), name) <==> retrieved(before, name) || (name == entry.0
                && entry.1),
{
    let after = before.push(entry);
    let last = before.len() as int;
    assert(after[last] == entry);
    assert forall|i: int, j: int| 0 <= i < j < after.len() implies (#[trigger] after[i]).0 != (
    #[trigger] after[j]).0 by {
        if j == last {
            assert(before[i].0 != entry.0);
        } else {
            assert(before[i].0 != before[j].0);
        }
    }
    assert forall|name: Seq<char>|
        #![trigger registered(after, name)]
        registered(after, name) <==> registered(before, name) || name == entry.0 by {
        if registered(after, name) {
            let i = choose|i: int| 0 <= i < after.len() && (#[trigger] after[i]).0 == name;
            if i < last {
                assert(before[i].0 == name);
            }
        }
        if registered(before, name) {
            let i = choose|i: int| 0 <= i < before.len() && (#[trigger] before[i]).0 == name;
            assert(after[i].0 == name);
        }
    }
    assert forall|name: Seq<char>|
        #![trigger retrieved(after, name)]
        retrieved(after, name) <==> retrieved(before, name) || (name == entry.0 && entry.1) by {
        if retrieved(after, name) {
            let i = choose|i: int| 0 <= i < after.len() && #[trigger] after[i] == (name, true);
            if i < last {
                assert(before[i] == (name, true));
            }
        }
        if retrieved(before, name) {
            let i = choose|i: int| 0 <= i < before.len() && #[trigger] before[i] == (name, true);
            assert(after[i] == (name, true));
        }
    }
}

/// A registry with one entry marked as retrieved.
pub proof fn lemma_marked(before: Registry, at: int)
    requires
        distinct_names(before),
        0 <= at < before.len(),
    ensures
        distinct_names(before.update(at, (before[at].0, true))),
        forall|name: Seq<char>|
            #![trigger registered(before.update(at, (before[at].0, true)), name)]
            registered(before.update(at, (before[at].0, true)), name) <==> registered(before, name),
        forall|name: Seq<char>|
            #![trigger retrieved(before.update(at, (before[at].0, true)), name)]
            retrieved(before.update(at, (before[at].0, true)), name) <==> retrieved(before, name)
                || name == before[at].0,
{
    let after = before.update(at, (before[at].0, true));
    assert forall|i: int, j: int| 0 <= i < j < after.len() implies (#[trigger] after[i]).0 != (
    #[trigger] after[j]).0 by {
        assert(before[i].0 != before[j].0);
    }
    assert forall|name: Seq<char>|
        #![trigger registered(after, name)]
        registered(after, name) <==> registered(before, name) by {
        if registered(after, name) {
            let i = choose|i: int| 0 <= i < after.len() && (#[trigger] after[i]).0 == name;
            assert(before[i].0 == name);
        }
        if registered(before, name) {
            let i = choose|i: int| 0 <= i < before.len() && (#[trigger] before[i]).0 == name;
            assert(after[i].0 == name);
        }
    }
    assert forall|name: Seq<char>|
        #![trigger retrieved(after, name)]
        retrieved(after, name) <==> retrieved(before, name) || name == before[at].0 by {
        if retrieved(after, name) {
            let i = choose|i: int| 0 <= i < after.len() && #[trigger] after[i] == (name, true);
            if i != at {
                assert(before[i] == (name, true));
            }
        }
        if retrieved(before, name) {
            let i = choose|i: int| 0 <= i < before.len() && #[trigger] before[i] == (name, true);
            assert(after[i] == (name, true));
        }
        if name == before[at].0 {
            assert(after[at] == (name, true));
        }
    }
}

/// Noting an event in a registry without doubles gives what the event asks
/// for, and no doubles.
pub proof fn lemma_note_one(locators: Registry, event: Event)
    requires
        distinct_names(locators),
    ensures
        noted(locators, event, note_one(locators, event)),
{
    match event {
        Event::Register(name) => {
            if !registered(locators, name) {
                lemma_pushed(locators, (name, false));
            }
        },
        Event::Get(name) => {
            match entry_of(locators, name) {
                Some(at) => {
                    lemma_marked(locators, at);
                },
                None => {
                    lemma_pushed(locators, (name, true));
                },
            }
        },
        Event::Import => {},
    }
}

/// Recording the events of a file in a registry without doubles gives an
/// entry to each type that is registered or retrieved, and the mark to each
/// that is retrieved.
pub proof fn lemma_record_all(locators: Registry, found: Seq<Event>)
    requires
        distinct_names(locators),
    ensures
        recorded(locators, found, record_all(locators, found)),
    decreases found.len(),
{
    if found.len() > 0 {
        let seen = found.drop_last();
        let event = found.last();
        let before = record_all(locators, seen);
        let after = record_all(locators, found);
        lemma_record_all(locators, seen);
        lemma_note_one(before, event);
        assert forall|e: Event| found.contains(e) <==> seen.contains(e) || e == event by {
            if found.contains(e) {
                let k = choose|k: int| 0 <= k < found.len() && found[k] == e;
                if k < seen.len() {
                    assert(seen[k] == e);
                }
            }
            if seen.contains(e) {
                let k = choose|k: int| 0 <= k < seen.len() && seen[k] == e;
                assert(found[k] == e);
            }
            assert(found[found.len() - 1] == event);
        }
        assert forall|name: Seq<char>|
            #![trigger registered(after, name)]
            #![trigger retrieved(after, name)]
            {
                &&& registered(after, name) <==> registered(locators, name) || found.contains(
                    Event::Register(name),
                ) || found.contains(Event::Get(name))
                &&& retrieved(after, name) <==> retrieved(locators, name) || found.contains(
                    Event::Get(name),
                )
            } by {
            assert(registered(before, name) <==> registered(locators, name) || seen.contains(
                Event::Register(name),
            ) || seen.contains(Event::Get(name)));
            assert(retrieved(before, name) <==> retrieved(locators, name) || seen.contains(
                Event::Get(name),
            ));
        }
    }
}

} // verus!
