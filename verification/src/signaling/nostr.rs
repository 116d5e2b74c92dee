//! Lists of workers that are published as Nostr events.

use crate::utils::text::{join, same};
#[allow(unused_imports)]
use crate::utils::words;
use crate::utils::{PhantomError, PhantomResult};
use nostr_sdk::prelude::FromBech32;
use vstd::prelude::*;

verus! {

/// The kind of event that carries a list.
pub const WORKER_LIST_KIND: u16 = 30078;

/// What the identifier tag of such an event says.
pub const WORKER_LIST_IDENTIFIER: &'static str = "phantom-workers";

/// How many events a search asks for.
pub const SEARCH_LIMIT: usize = 1;

/// The JSON text that `serde_json::to_string` makes of a list of strings.
pub uninterp spec fn list_json(list: Seq<Seq<char>>) -> Seq<char>;

/// What `serde_json::from_str` reads as a list of strings, or an error's text.
pub uninterp spec fn json_list(json: Seq<char>) -> Result<Seq<Seq<char>>, Seq<char>>;

/// What `PublicKey::from_bech32` reads: the key's bytes, or an error's text.
pub uninterp spec fn bech32_key(shown: Seq<char>) -> Result<Seq<u8>, Seq<char>>;

/// Whether `json` is what a list was written as.
pub open spec fn is_json_of(list: Seq<Seq<char>>, json: Seq<char>) -> bool {
    list_json(list) == json
}

/// `serde_json::to_string` on a list of strings. The result is named; claimed besides: it
/// succeeds, as only a map or a type's own code can make it fail.
#[verifier::external_body]
fn write_list(list: &Vec<String>) -> (r: Result<String, String>)
    ensures
        r is Ok,
        r matches Ok(json) ==> json@ == list_json(words::texts(list@)),
{
    serde_json::to_string(list).map_err(|e| e.to_string())
}

/// `serde_json::from_str` into a list of strings. The result is named; claimed besides: the
/// text that `serde_json::to_string` wrote for a list reads back as that list.
#[verifier::external_body]
fn read_list(json: &str) -> (r: Result<Vec<String>, String>)
    ensures
        r is Ok == json_list(json@) is Ok,
        r is Ok ==> words::texts(r->Ok_0@) == json_list(json@)->Ok_0,
        r is Err ==> r->Err_0@ == json_list(json@)->Err_0,
        forall|list: Seq<Seq<char>>|
            #![trigger list_json(list)]
            is_json_of(list, json@) ==> r is Ok && words::texts(r->Ok_0@) == list,
{
    serde_json::from_str(json).map_err(|e| e.to_string())
}

/// `FromBech32::from_bech32` of `nostr_sdk::PublicKey`. The result is named; claimed
/// besides: a key has 32 bytes.
#[verifier::external_body]
fn read_key(shown: &str) -> (r: Result<Vec<u8>, String>)
    ensures
        r is Ok == bech32_key(shown@) is Ok,
        r is Ok ==> r->Ok_0@ == bech32_key(shown@)->Ok_0 && r->Ok_0@.len() == 32,
        r is Err ==> r->Err_0@ == bech32_key(shown@)->Err_0,
{
    nostr_sdk::PublicKey::from_bech32(shown).map(|k| k.to_bytes().to_vec()).map_err(
        |e| e.to_string(),
    )
}

/// A tag of an event: whether it is the identifier tag, and what it says.
#[derive(Debug)]
pub struct WorkerTag {
    pub is_identifier: bool,
    pub content: Option<String>,
}

/// What the library reads of an event.
#[derive(Debug)]
pub struct WorkerEvent {
    pub kind: u16,
    pub content: String,
    pub tags: Vec<WorkerTag>,
}

/// Whether a tag marks a list of workers.
pub open spec fn marks(tag: WorkerTag) -> bool {
    tag.is_identifier && (tag.content matches Some(text) && text@ == WORKER_LIST_IDENTIFIER@)
}

/// How many of the tags mark a list.
pub open spec fn marks_among(tags: Seq<WorkerTag>) -> nat
    decreases tags.len(),
{
    if tags.len() == 0 {
        0
    } else {
        marks_among(tags.drop_last()) + if marks(tags.last()) {
            1nat
        } else {
            0nat
        }
    }
}

/// `list` over and over.
pub open spec fn repeated(list: Seq<Seq<char>>, times: nat) -> Seq<Seq<char>>
    decreases times,
{
    if times == 0 {
        Seq::empty()
    } else {
        repeated(list, (times - 1) as nat) + list
    }
}

/// What an event adds to the workers found: its list once for each tag that marks it, and
/// nothing where its content is no list.
pub open spec fn listed(
    tags: Seq<WorkerTag>,
    parsed: Result<Seq<Seq<char>>, Seq<char>>,
) -> Seq<Seq<char>> {
    match parsed {
        Ok(list) => repeated(list, marks_among(tags)),
        Err(_) => Seq::empty(),
    }
}

/// The workers that events list, in the events' order.
pub open spec fn all_listed(events: Seq<WorkerEvent>) -> Seq<Seq<char>>
    decreases events.len(),
{
    if events.len() == 0 {
        Seq::empty()
    } else {
        all_listed(events.drop_last()) + listed(
            events.last().tags@,
            json_list(events.last().content@),
        )
    }
}

/// Appends copies of `extra` to `list`.
fn extend_texts(list: &mut Vec<String>, extra: &Vec<String>)
    ensures
        words::texts(final(list)@) == words::texts(old(list)@) + words::texts(extra@),
{
    let ghost had = words::texts(list@);
    let ghost more = words::texts(extra@);
    let mut i: usize = 0;
    assert(had + more.take(0) =~= had);
    while i < extra.len()
        invariant
            i <= extra@.len(),
            more == words::texts(extra@),
            words::texts(list@) == had + more.take(i as int),
        decreases extra@.len() - i,
    {
        let ghost before = words::texts(list@);
        let one = extra[i].clone();
        list.push(one);
        i += 1;
        assert(words::texts(list@) =~= before.push(one@));
        assert(words::texts(list@) =~= had + more.take(i as int));
    }
    assert(more.take(i as int) =~= more);
}

/// Adds what an event lists, where `parsed` is what its content reads as.
pub fn add_listed(
    workers: &mut Vec<String>,
    tags: &Vec<WorkerTag>,
    parsed: &Result<Vec<String>, String>,
)
    ensures
        words::texts(final(workers)@) == words::texts(old(workers)@) + listed(
            tags@,
            match *parsed {
                Ok(list) => Ok(words::texts(list@)),
                Err(why) => Err(why@),
            },
        ),
{
    let ghost had = words::texts(workers@);
    match parsed {
        Err(_) => {
            assert(had + Seq::<Seq<char>>::empty() =~= had);
        },
        Ok(list) => {
            let ghost one = words::texts(list@);
            let mut i: usize = 0;
            proof {
                assert(tags@.take(0) =~= Seq::empty());
                assert(had + repeated(one, marks_among(tags@.take(0))) =~= had);
            }
            while i < tags.len()
                invariant
                    i <= tags@.len(),
                    one == words::texts(list@),
                    words::texts(workers@) == had + repeated(
                        one,
                        marks_among(tags@.take(i as int)),
                    ),
                decreases tags@.len() - i,
            {
                let ghost now = words::texts(workers@);
                let ghost count = marks_among(tags@.take(i as int));
                assert(tags@.take(i + 1).drop_last() =~= tags@.take(i as int));
                assert(tags@.take(i + 1).last() == tags@[i as int]);
                let tag = &tags[i];
                let marked = tag.is_identifier && match &tag.content {
                    Some(text) => same(text.as_str(), WORKER_LIST_IDENTIFIER),
                    None => false,
                };
                assert(marked == marks(tags@[i as int]));
                if marked {
                    extend_texts(workers, list);
                    assert(repeated(one, count + 1) =~= repeated(one, count) + one);
                    assert(words::texts(workers@) =~= had + repeated(one, count + 1));
                }
                i += 1;
            }
            assert(tags@.take(i as int) =~= tags@);
        },
    }
}

/// Where lists are published, and by whom.
#[derive(Debug)]
pub struct NostrDiscovery {
    pub relays: Vec<String>,
    pub pubkey: String,
}

impl NostrDiscovery {
    pub fn new(relays: Vec<String>, pubkey: String) -> (d: Self)
        ensures
            d.relays == relays,
            d.pubkey == pubkey,
    {
        NostrDiscovery { relays, pubkey }
    }

    /// The publisher's key, as bytes.
    pub fn author(&self) -> (r: PhantomResult<Vec<u8>>)
        ensures
            match bech32_key(self.pubkey@) {
                Ok(key) => r matches Ok(bytes) && bytes@ == key && bytes@.len() == 32,
                Err(why) => r matches Err(e) && e.is_signaling("Invalid pubkey: "@ + why),
            },
    {
        match read_key(self.pubkey.as_str()) {
            Ok(bytes) => Ok(bytes),
            Err(why) => Err(PhantomError::SignalingError(join("Invalid pubkey: ", why.as_str()))),
        }
    }

    /// The content of an event that publishes `workers`.
    pub fn publish_workers(&self, workers: &Vec<String>) -> (r: PhantomResult<String>)
        ensures
            r matches Ok(content) && content@ == list_json(words::texts(workers@)),
    {
        match write_list(workers) {
            Ok(content) => Ok(content),
            Err(why) => Err(
                PhantomError::SignalingError(join("Serialization failed: ", why.as_str())),
            ),
        }
    }

    /// The error when an event could not be sent.
    pub fn publish_failed(&self, why: &str) -> (e: PhantomError)
        ensures
            e.is_signaling("Failed to publish workers: "@ + why@),
    {
        PhantomError::SignalingError(join("Failed to publish workers: ", why))
    }

    /// The error when events could not be fetched.
    pub fn fetch_failed(&self, why: &str) -> (e: PhantomError)
        ensures
            e.is_signaling("Failed to fetch events: "@ + why@),
    {
        PhantomError::SignalingError(join("Failed to fetch events: ", why))
    }

    /// The workers that fetched events list.
    pub fn discover_workers(&self, events: &Vec<WorkerEvent>) -> (workers: Vec<String>)
        ensures
            words::texts(workers@) == all_listed(events@),
            forall|list: Seq<Seq<char>>|
                events@.len() == 1 && marks_among(events@[0].tags@) == 1 && #[trigger] is_json_of(
                    list,
                    events@[0].content@,
                ) ==> words::texts(workers@) == list,
    {
        let mut workers: Vec<String> = Vec::new();
        let mut i: usize = 0;
        assert(events@.take(0) =~= Seq::empty());
        assert(words::texts(workers@) =~= all_listed(events@.take(0)));
        while i < events.len()
            invariant
                i <= events@.len(),
                words::texts(workers@) == all_listed(events@.take(i as int)),
                forall|list: Seq<Seq<char>>|
                    i == 1 && marks_among(events@[0].tags@) == 1 && #[trigger] is_json_of(
                        list,
                        events@[0].content@,
                    ) ==> words::texts(workers@) == list,
            decreases events@.len() - i,
        {
            let ghost had = words::texts(workers@);
            let event = &events[i];
            let parsed = read_list(event.content.as_str());
            add_listed(&mut workers, &event.tags, &parsed);
            proof {
                let read = match parsed {
                    Ok(list) => Ok::<Seq<Seq<char>>, Seq<char>>(words::texts(list@)),
                    Err(why) => Err(why@),
                };
                assert(read == json_list(event.content@));
                assert(events@.take(i + 1).drop_last() =~= events@.take(i as int));
                assert(events@.take(i + 1).last() == events@[i as int]);
                assert(words::texts(workers@) == had + listed(event.tags@, read));
                if i == 0 && marks_among(event.tags@) == 1 && parsed is Ok {
                    let one = words::texts(parsed->Ok_0@);
                    reveal_with_fuel(repeated, 2);
                    assert(had =~= Seq::empty());
                    assert(had + (Seq::empty() + one) =~= one);
                }
            }
            i += 1;
        }
        assert(events@.take(i as int) =~= events@);
        workers
    }

    /// What a new event brings: its list, where it is of the right kind and its content is
    /// one. Its tags are not looked at.
    pub fn on_event(&self, kind: u16, content: &str) -> (update: Option<Vec<String>>)
        ensures
            kind == WORKER_LIST_KIND && json_list(content@) is Ok ==> (update matches Some(list)
                && words::texts(list@) == json_list(content@)->Ok_0),
            kind != WORKER_LIST_KIND || json_list(content@) is Err ==> update is None,
            forall|list: Seq<Seq<char>>|
                kind == WORKER_LIST_KIND && #[trigger] is_json_of(list, content@) ==> (
                update matches Some(new) && words::texts(new@) == list),
    {
        if kind != WORKER_LIST_KIND {
            return None;
        }
        match read_list(content) {
            Ok(list) => Some(list),
            Err(_) => None,
        }
    }
}

/// An event's list is taken as often as its tags mark it: not at all without such a tag, once with
/// one, and again with each further one; what is no list is not taken.
pub proof fn law_lists_are_taken_once_for_each_mark(
    tags: Seq<WorkerTag>,
    tag: WorkerTag,
    list: Seq<Seq<char>>,
    fault: Seq<char>,
)
    ensures
        listed(Seq::empty(), Ok(list)) == Seq::<Seq<char>>::empty(),
        listed(tags.push(tag), Ok(list)) == if tag.is_identifier && tag.content is Some
            && tag.content->Some_0@ == WORKER_LIST_IDENTIFIER@ {
            listed(tags, Ok(list)) + list
        } else {
            listed(tags, Ok(list))
        },
        listed(tags, Err(fault)) == Seq::<Seq<char>>::empty(),
{
    assert(tags.push(tag).drop_last() =~= tags);
    assert(tags.push(tag).last() == tag);
}

/// The workers of a further event stand behind those of the events before it.
pub proof fn law_events_add_their_workers(events: Seq<WorkerEvent>, event: WorkerEvent)
    ensures
        all_listed(Seq::<WorkerEvent>::empty()) == Seq::<Seq<char>>::empty(),
        all_listed(events.push(event)) == all_listed(events) + listed(
            event.tags@,
            json_list(event.content@),
        ),
{
    assert(events.push(event).drop_last() =~= events);
    assert(events.push(event).last() == event);
}

} // verus!
