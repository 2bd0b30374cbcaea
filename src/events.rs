use vstd::prelude::*;
use vstd::utf8::{decode_utf8, valid_utf8, encode_utf8_decode_utf8, decode_utf8_encode_utf8};
use vstd::string::StringSliceAdditionalSpecFns;

use crate::error::PerfError;

verus! {

/// One record as the counter backend reports it: the event name as the raw
/// bytes of its text, and the 64-bit count.
pub struct RawEvent {
    pub name: Vec<u8>,
    pub value: u64,
}

/// The mapping that inserting `pairs` in order into an empty map gives: a
/// later pair overwrites an earlier one with the same key.
pub open spec fn map_of_pairs(pairs: Seq<(Seq<char>, u64)>) -> Map<Seq<char>, u64>
    decreases pairs.len(),
{
    if pairs.len() == 0 {
        Map::empty()
    } else {
        map_of_pairs(pairs.drop_last()).insert(pairs.last().0, pairs.last().1)
    }
}

/// No two pairs share a key.
pub open spec fn keys_unique(pairs: Seq<(Seq<char>, u64)>) -> bool {
    forall|i: int, j: int| 0 <= i < j < pairs.len() ==> pairs[i].0 != pairs[j].0
}

/// Every record's name is valid UTF-8.
pub open spec fn names_valid(records: Seq<RawEvent>) -> bool {
    forall|i: int| 0 <= i < records.len() ==> valid_utf8(#[trigger] records[i].name@)
}

/// The records as (decoded name, count) pairs, in the backend's order.
pub open spec fn decoded_pairs(records: Seq<RawEvent>) -> Seq<(Seq<char>, u64)> {
    records.map_values(|r: RawEvent| (decode_utf8(r.name@), r.value))
}

/// The name-to-count mapping that a set of backend records stands for.
pub open spec fn records_map(records: Seq<RawEvent>) -> Map<Seq<char>, u64> {
    map_of_pairs(decoded_pairs(records))
}

/// Relies on std::str::from_utf8: it succeeds exactly when the bytes are
/// valid UTF-8, and then yields a string slice over those same bytes.
#[verifier::external_body]
fn str_from_utf8(bytes: &[u8]) -> (r: Option<&str>)
    ensures
        r is Some <==> valid_utf8(bytes@),
        r matches Some(s) ==> s.spec_bytes() == bytes@,
{
    std::str::from_utf8(bytes).ok()
}

/// Decodes an event name from the bytes of its text; bytes that are not valid
/// UTF-8 give `InvalidEventName`.
pub fn decode_event_name(name: &[u8]) -> (r: Result<String, PerfError>)
    ensures
        r is Ok <==> valid_utf8(name@),
        r matches Ok(s) ==> s@ == decode_utf8(name@),
        r matches Err(e) ==> e == PerfError::InvalidEventName,
{
    match str_from_utf8(name) {
        Some(s) => {
            proof {
                encode_utf8_decode_utf8(s@);
            }
            Ok(s.to_owned())
        },
        None => Err(PerfError::InvalidEventName),
    }
}

/// Later pairs overwrite earlier ones: the map holds each key with the count of
/// its last pair, and no other key.
pub proof fn lemma_map_of_pairs_last(pairs: Seq<(Seq<char>, u64)>, j: int)
    requires
        0 <= j < pairs.len(),
        forall|k: int| j < k < pairs.len() ==> pairs[k].0 != pairs[j].0,
    ensures
        map_of_pairs(pairs).contains_key(pairs[j].0),
        map_of_pairs(pairs)[pairs[j].0] == pairs[j].1,
    decreases pairs.len(),
{
    if j < pairs.len() - 1 {
        lemma_map_of_pairs_last(pairs.drop_last(), j);
    }
}

/// The keys of the map are exactly the keys of the pairs.
proof fn lemma_map_of_pairs_dom(pairs: Seq<(Seq<char>, u64)>, key: Seq<char>)
    ensures
        map_of_pairs(pairs).dom().finite(),
        map_of_pairs(pairs).contains_key(key) <==> exists|i: int|
            0 <= i < pairs.len() && #[trigger] pairs[i].0 == key,
    decreases pairs.len(),
{
    if pairs.len() > 0 {
        let rest = pairs.drop_last();
        lemma_map_of_pairs_dom(rest, key);
        if exists|i: int| 0 <= i < rest.len() && #[trigger] rest[i].0 == key {
            let i = choose|i: int| 0 <= i < rest.len() && #[trigger] rest[i].0 == key;
            assert(pairs[i].0 == key);
        }
        if exists|i: int| 0 <= i < pairs.len() && #[trigger] pairs[i].0 == key {
            let i = choose|i: int| 0 <= i < pairs.len() && #[trigger] pairs[i].0 == key;
            if i < rest.len() {
                assert(rest[i].0 == key);
            }
        }
    }
}

/// With unique keys the map has one entry per pair.
proof fn lemma_map_of_pairs_len(pairs: Seq<(Seq<char>, u64)>)
    requires
        keys_unique(pairs),
    ensures
        map_of_pairs(pairs).len() == pairs.len(),
    decreases pairs.len(),
{
    if pairs.len() > 0 {
        let rest = pairs.drop_last();
        lemma_map_of_pairs_len(rest);
        lemma_map_of_pairs_dom(rest, pairs.last().0);
        if map_of_pairs(rest).contains_key(pairs.last().0) {
            let i = choose|i: int| 0 <= i < rest.len() && #[trigger] rest[i].0 == pairs.last().0;
            assert(pairs[i].0 == pairs[pairs.len() - 1].0);
        }
    }
}

/// Replacing the count of a pair whose key is unique is an overwrite of that
/// key in the map.
proof fn lemma_map_of_pairs_update(pairs: Seq<(Seq<char>, u64)>, i: int, value: u64)
    requires
        keys_unique(pairs),
        0 <= i < pairs.len(),
    ensures
        map_of_pairs(pairs.update(i, (pairs[i].0, value))) == map_of_pairs(pairs).insert(pairs[i].0, value),
    decreases pairs.len(),
{
    let updated = pairs.update(i, (pairs[i].0, value));
    let rest = pairs.drop_last();
    if i == pairs.len() - 1 {
        assert(updated.drop_last() =~= rest);
        assert(map_of_pairs(updated) =~= map_of_pairs(pairs).insert(pairs[i].0, value));
    } else {
        assert(updated.drop_last() =~= rest.update(i, (rest[i].0, value)));
        lemma_map_of_pairs_update(rest, i, value);
        assert(pairs.last().0 != pairs[i].0);
        assert(map_of_pairs(updated) =~= map_of_pairs(pairs).insert(pairs[i].0, value));
    }
}

/// An owned mapping from event name to count, with unique names.
pub struct EventCounts {
    entries: Vec<(String, u64)>,
}

/// The entries as (name, count) pairs of mathematical values.
pub open spec fn pairs_of(entries: Seq<(String, u64)>) -> Seq<(Seq<char>, u64)> {
    entries.map_values(|e: (String, u64)| (e.0@, e.1))
}

impl View for EventCounts {
    type V = Map<Seq<char>, u64>;

    closed spec fn view(&self) -> Map<Seq<char>, u64> {
        map_of_pairs(pairs_of(self.entries@))
    }
}

impl EventCounts {
    #[verifier::type_invariant]
    spec fn inv(self) -> bool {
        keys_unique(pairs_of(self.entries@))
    }

    /// An empty mapping.
    pub fn new() -> (m: EventCounts)
        ensures
            m@ == Map::<Seq<char>, u64>::empty(),
    {
        let m = EventCounts { entries: Vec::new() };
        assert(pairs_of(m.entries@) =~= Seq::<(Seq<char>, u64)>::empty());
        m
    }

    /// The number of names in the mapping.
    pub fn len(&self) -> (r: usize)
        ensures
            r == self@.len(),
    {
        proof {
            use_type_invariant(self);
            lemma_map_of_pairs_len(pairs_of(self.entries@));
        }
        self.entries.len()
    }

    /// The count recorded for `name`, if the mapping holds it.
    pub fn get(&self, name: &str) -> (r: Option<u64>)
        ensures
            r == (if self@.contains_key(name@) {
                Some(self@[name@])
            } else {
                None::<u64>
            }),
    {
        proof {
            use_type_invariant(self);
        }
        let key = name.to_owned();
        let ghost pairs = pairs_of(self.entries@);
        let mut i: usize = 0;
        while i < self.entries.len()
            invariant
                i <= self.entries.len(),
                pairs == pairs_of(self.entries@),
                keys_unique(pairs),
                key@ == name@,
                forall|j: int| 0 <= j < i ==> pairs[j].0 != key@,
            decreases self.entries.len() - i,
        {
            if self.entries[i].0 == key {
                proof {
                    lemma_map_of_pairs_last(pairs, i as int);
                }
                return Some(self.entries[i].1);
            }
            i = i + 1;
        }
        proof {
            lemma_map_of_pairs_dom(pairs, key@);
            if self@.contains_key(key@) {
                let j = choose|j: int| 0 <= j < pairs.len() && #[trigger] pairs[j].0 == key@;
                assert(false);
            }
        }
        None
    }

    /// Records `value` for `name`, replacing any count it had.
    pub fn insert(&mut self, name: String, value: u64)
        ensures
            final(self)@ == old(self)@.insert(name@, value),
    {
        proof {
            use_type_invariant(&*self);
        }
        let mut entries: Vec<(String, u64)> = Vec::new();
        std::mem::swap(&mut self.entries, &mut entries);
        let ghost pairs = pairs_of(entries@);
        let mut i: usize = 0;
        while i < entries.len()
            invariant
                i <= entries.len(),
                pairs == pairs_of(entries@),
                old(self)@ == map_of_pairs(pairs),
                keys_unique(pairs),
                forall|j: int| 0 <= j < i ==> pairs[j].0 != name@,
            decreases entries.len() - i,
        {
            if entries[i].0 == name {
                proof {
                    assert(pairs[i as int].0 == name@);
                    lemma_map_of_pairs_update(pairs, i as int, value);
                    assert(pairs_of(entries@.update(i as int, (name, value))) =~= pairs.update(
                        i as int,
                        (pairs[i as int].0, value),
                    ));
                }
                entries.set(i, (name, value));
                self.entries = entries;
                return;
            }
            i = i + 1;
        }
        proof {
            assert(pairs_of(entries@.push((name, value))) =~= pairs.push((name@, value)));
            assert(pairs.push((name@, value)).drop_last() =~= pairs);
        }
        entries.push((name, value));
        self.entries = entries;
    }

    /// The (name, count) entries of the mapping, each name once, in no
    /// particular order.
    pub fn into_entries(self) -> (r: Vec<(String, u64)>)
        ensures
            keys_unique(pairs_of(r@)),
            map_of_pairs(pairs_of(r@)) == self@,
    {
        proof {
            use_type_invariant(&self);
        }
        self.entries
    }
}

/// Turns the records of one measurement into a fresh name-to-count mapping,
/// later records overwriting earlier ones with the same name. Fails with
/// `InvalidEventName` exactly when some name is not valid UTF-8.
pub fn collect_events(records: &Vec<RawEvent>) -> (r: Result<EventCounts, PerfError>)
    ensures
        r is Ok <==> names_valid(records@),
        r matches Ok(m) ==> m@ == records_map(records@),
        r matches Err(e) ==> e == PerfError::InvalidEventName,
        records@.len() == 0 ==> (r matches Ok(m) && m@ == Map::<Seq<char>, u64>::empty()),
{
    let mut counts = EventCounts::new();
    let mut i: usize = 0;
    while i < records.len()
        invariant
            i <= records.len(),
            names_valid(records@.take(i as int)),
            counts@ == records_map(records@.take(i as int)),
        decreases records.len() - i,
    {
        let record = &records[i];
        match decode_event_name(record.name.as_slice()) {
            Ok(name) => {
                proof {
                    let next = records@.take(i + 1);
                    assert(next.drop_last() =~= records@.take(i as int));
                    assert(decoded_pairs(next).drop_last() =~= decoded_pairs(records@.take(i as int)));
                    assert(names_valid(next)) by {
                        assert forall|j: int| 0 <= j < next.len() implies valid_utf8(
                            #[trigger] next[j].name@,
                        ) by {
                            if j < i {
                                assert(records@.take(i as int)[j] == next[j]);
                            }
                        }
                    }
                }
                counts.insert(name, record.value);
            },
            Err(e) => {
                proof {
                    assert(!valid_utf8(records@[i as int].name@));
                }
                return Err(e);
            },
        }
        i = i + 1;
    }
    proof {
        assert(records@.take(i as int) =~= records@);
    }
    Ok(counts)
}

/// Valid UTF-8 names that decode to the same text are the same bytes.
proof fn lemma_decode_injective(a: Seq<u8>, b: Seq<u8>)
    requires
        valid_utf8(a),
        valid_utf8(b),
        decode_utf8(a) == decode_utf8(b),
    ensures
        a == b,
{
    decode_utf8_encode_utf8(a);
    decode_utf8_encode_utf8(b);
}

/// For records with valid, pairwise distinct names, the mapping has exactly
/// one entry per record, and each record's name maps to that record's count.
pub proof fn lemma_round_trip(records: Seq<RawEvent>)
    requires
        names_valid(records),
        forall|i: int, j: int| 0 <= i < j < records.len() ==> records[i].name@ != records[j].name@,
    ensures
        records_map(records).len() == records.len(),
        forall|i: int| 0 <= i < records.len() ==> {
            &&& records_map(records).contains_key(decode_utf8(#[trigger] records[i].name@))
            &&& records_map(records)[decode_utf8(records[i].name@)] == records[i].value
        },
{
    let pairs = decoded_pairs(records);
    assert(keys_unique(pairs)) by {
        assert forall|i: int, j: int| 0 <= i < j < pairs.len() implies pairs[i].0 != pairs[j].0 by {
            if pairs[i].0 == pairs[j].0 {
                assert(valid_utf8(records[i].name@));
                assert(valid_utf8(records[j].name@));
                lemma_decode_injective(records[i].name@, records[j].name@);
            }
        }
    }
    lemma_map_of_pairs_len(pairs);
    assert forall|i: int| 0 <= i < records.len() implies {
        &&& records_map(records).contains_key(decode_utf8(#[trigger] records[i].name@))
        &&& records_map(records)[decode_utf8(records[i].name@)] == records[i].value
    } by {
        lemma_map_of_pairs_last(pairs, i);
    }
}

/// Later records win: where no later record repeats the name of record `j`,
/// the mapping holds that name once, with record `j`'s count, whatever
/// earlier records with the same name reported.
pub proof fn lemma_last_record_wins(records: Seq<RawEvent>, j: int)
    requires
        names_valid(records),
        0 <= j < records.len(),
        forall|k: int| j < k < records.len() ==> records[k].name@ != records[j].name@,
    ensures
        records_map(records).contains_key(decode_utf8(records[j].name@)),
        records_map(records)[decode_utf8(records[j].name@)] == records[j].value,
{
    let pairs = decoded_pairs(records);
    assert forall|k: int| j < k < pairs.len() implies pairs[k].0 != pairs[j].0 by {
        if pairs[k].0 == pairs[j].0 {
            assert(valid_utf8(records[k].name@));
            assert(valid_utf8(records[j].name@));
            lemma_decode_injective(records[k].name@, records[j].name@);
        }
    }
    lemma_map_of_pairs_last(pairs, j);
}

} // verus!
