//! A consumer of one topic for one consumer group.
use vstd::prelude::*;
use crate::client::Client;
use crate::error::ErrorCode;
use crate::parser::fetch_request::{FetchRequest, Partitions, Topics, ForgottenTopicsData};
use crate::parser::fetch_response::{FetchResponse, PartitionResponses, Responses};
use crate::record::{RecordBatch, RawRecords};
use crate::parser::find_coordinator_request::FindCoordinatorRequest;
use crate::order::{bytes_lt, compare_bytes, lemma_lt_total, lemma_lt_transitive};
use vstd::utf8::encode_utf8;

verus! {

/// `std::io::Error`, the error of a failed operation on a connection.
#[verifier::external_type_specification]
#[verifier::external_body]
pub struct ExIoError(std::io::Error);

/// A consumer: its connection, its member id and group, its topic, and for
/// each topic the partitions to fetch with the offset to fetch from, kept in
/// ascending order of the topics' names (see `wf`).
pub struct Consumer<I> {
    client: Client<I>,
    member_id: String,
    group_id: String,
    topic: String,
    fetch_offsets: Vec<(String, Vec<(i32, i64)>)>,
}

/// The settings of a consumer to be built.
pub struct Builder {
    group_id: String,
    topic: String,
}

impl Builder {
    /// The consumer group to join.
    pub closed spec fn spec_group_id(&self) -> Seq<char> {
        self.group_id@
    }

    /// The topic to consume.
    pub closed spec fn spec_topic(&self) -> Seq<char> {
        self.topic@
    }

    /// No group and no topic yet: both empty.
    pub fn new() -> (b: Self)
        ensures
            b.spec_group_id() == Seq::<char>::empty(),
            b.spec_topic() == Seq::<char>::empty(),
    {
        Builder { group_id: String::new(), topic: String::new() }
    }

    /// The consumer group to join.
    pub fn group(&self) -> (r: &str)
        ensures
            r@ == self.spec_group_id(),
    {
        self.group_id.as_str()
    }

    /// The request that asks for the group's coordinator: the group as the
    /// key, of key type 0 (a group).
    pub fn coordinator_request(&self) -> (r: FindCoordinatorRequest<'_>)
        ensures
            r.key@ == self.spec_group_id(),
            r.key_type == 0,
    {
        FindCoordinatorRequest { key: self.group_id.as_str(), key_type: 0 }
    }

    /// Sets the topic to consume.
    pub fn topic(self, topic: String) -> (b: Self)
        ensures
            b.spec_topic() == topic@,
            b.spec_group_id() == self.spec_group_id(),
    {
        Builder { group_id: self.group_id, topic }
    }

    /// Sets the consumer group to join.
    pub fn group_id(self, group_id: String) -> (b: Self)
        ensures
            b.spec_group_id() == group_id@,
            b.spec_topic() == self.spec_topic(),
    {
        Builder { group_id, topic: self.topic }
    }

    /// What building a consumer comes to once it is connected and has asked
    /// for its group's coordinator: the coordinator's error, if it gave one;
    /// else the consumer of the topic for the group, with no member id yet and
    /// no fetch offsets.
    pub fn finish<I>(self, client: Client<I>, coordinator_error: ErrorCode) -> (r: Result<Consumer<I>, ErrorCode>)
        ensures
            coordinator_error != ErrorCode::NoError ==> r == Err::<Consumer<I>, ErrorCode>(coordinator_error),
            coordinator_error == ErrorCode::NoError ==> (r matches Ok(c) && {
                &&& c.spec_client() == client
                &&& c.spec_member_id() == Seq::<char>::empty()
                &&& c.spec_group_id() == self.spec_group_id()
                &&& c.spec_topic() == self.spec_topic()
                &&& c.spec_fetch_offsets() == Seq::<(String, Vec<(i32, i64)>)>::empty()
                &&& c.wf()
            }),
    {
        match coordinator_error.into_result() {
            Err(e) => Err(e),
            Ok(()) => Ok(
                Consumer {
                    fetch_offsets: Vec::new(),
                    client,
                    member_id: String::new(),
                    group_id: self.group_id,
                    topic: self.topic,
                },
            ),
        }
    }
}

/// The key by which topic names are ordered: their UTF-8 bytes.
pub open spec fn name_key(name: Seq<char>) -> Seq<u8> {
    encode_utf8(name)
}

/// The fetch offsets are in strictly ascending order of their topics' names
/// (so no topic comes twice).
pub open spec fn ascending(offsets: Seq<(String, Vec<(i32, i64)>)>) -> bool {
    forall|i: int, j: int|
        0 <= i < j < offsets.len() ==> bytes_lt(name_key(#[trigger] offsets[i].0@), name_key(#[trigger] offsets[j].0@))
}

/// No two topics of a reply have the same name.
pub open spec fn distinct_topics(topics: Seq<(String, Vec<(i32, ErrorCode, i64)>)>) -> bool {
    forall|i: int, j: int|
        0 <= i < j < topics.len() ==> name_key(#[trigger] topics[i].0@) != name_key(#[trigger] topics[j].0@)
}

/// The first error code among the partitions of a reply, in order.
pub open spec fn partition_error(ps: Seq<(i32, ErrorCode, i64)>) -> Option<ErrorCode>
    decreases ps.len(),
{
    if ps.len() == 0 {
        None
    } else if ps[0].1 != ErrorCode::NoError {
        Some(ps[0].1)
    } else {
        partition_error(ps.drop_first())
    }
}

/// The first error code among the partitions of the topics of a reply, in
/// order.
pub open spec fn topics_error(ts: Seq<(String, Vec<(i32, ErrorCode, i64)>)>) -> Option<ErrorCode>
    decreases ts.len(),
{
    if ts.len() == 0 {
        None
    } else {
        match partition_error(ts[0].1@) {
            Some(e) => Some(e),
            None => topics_error(ts.drop_first()),
        }
    }
}

/// The first error of an offset-fetch reply: its own error code, then those
/// of its partitions, in order.
pub open spec fn first_error(error_code: ErrorCode, ts: Seq<(String, Vec<(i32, ErrorCode, i64)>)>) -> Option<ErrorCode> {
    if error_code != ErrorCode::NoError {
        Some(error_code)
    } else {
        topics_error(ts)
    }
}

/// The offsets of the partitions of a reply: each partition with its offset.
pub open spec fn offsets_of(ps: Seq<(i32, ErrorCode, i64)>) -> Seq<(i32, i64)> {
    ps.map_values(|p: (i32, ErrorCode, i64)| (p.0, p.2))
}

/// The first error code among the partitions, if any.
fn find_partition_error(ps: &Vec<(i32, ErrorCode, i64)>) -> (r: Option<ErrorCode>)
    ensures
        r == partition_error(ps@),
{
    let mut i: usize = 0;
    proof {
        assert(ps@.skip(0) =~= ps@);
    }
    while i < ps.len()
        invariant
            i <= ps@.len(),
            partition_error(ps@) == partition_error(ps@.skip(i as int)),
        decreases ps@.len() - i,
    {
        let ghost rest = ps@.skip(i as int);
        assert(rest[0] == ps@[i as int]);
        if ps[i].1 != ErrorCode::NoError {
            return Some(ps[i].1);
        }
        assert(rest.drop_first() =~= ps@.skip(i + 1));
        i = i + 1;
    }
    assert(ps@.skip(i as int).len() == 0);
    None
}

/// The partitions with their offsets.
fn offsets_in(ps: &Vec<(i32, ErrorCode, i64)>) -> (r: Vec<(i32, i64)>)
    ensures
        r@ == offsets_of(ps@),
{
    let mut out: Vec<(i32, i64)> = Vec::new();
    let mut i: usize = 0;
    while i < ps.len()
        invariant
            i <= ps@.len(),
            out@ =~= offsets_of(ps@.take(i as int)),
        decreases ps@.len() - i,
    {
        out.push((ps[i].0, ps[i].2));
        proof {
            assert(ps@.take(i + 1) =~= ps@.take(i as int).push(ps@[i as int]));
        }
        i = i + 1;
    }
    assert(ps@.take(i as int) =~= ps@);
    out
}

/// The offsets hold the topic `t` of a reply: its name, with its partitions
/// and their offsets.
pub open spec fn holds_topic(offsets: Seq<(String, Vec<(i32, i64)>)>, t: (String, Vec<(i32, ErrorCode, i64)>)) -> bool {
    exists|k: int| 0 <= k < offsets.len() && #[trigger] offsets[k].0@ == t.0@ && offsets[k].1@ == offsets_of(t.1@)
}

/// Where a topic named `key` goes among ascending offsets: after every topic
/// whose name comes before it, before every other.
fn insert_position(out: &Vec<(String, Vec<(i32, i64)>)>, key: &[u8]) -> (j: usize)
    ensures
        j <= out@.len(),
        forall|k: int| 0 <= k < j ==> bytes_lt(name_key(#[trigger] out@[k].0@), key@),
        j < out@.len() ==> !bytes_lt(name_key(out@[j as int].0@), key@),
{
    let mut j: usize = 0;
    while j < out.len()
        invariant
            j <= out@.len(),
            forall|k: int| 0 <= k < j ==> bytes_lt(name_key(#[trigger] out@[k].0@), key@),
        decreases out@.len() - j,
    {
        let name = out[j].0.as_str().as_bytes();
        if compare_bytes(name, key) >= 0 {
            return j;
        }
        j = j + 1;
    }
    j
}

/// The request for one partition from an offset: the most a fetch asks of
/// it is 128 KiB.
pub open spec fn fetch_partition(p: (i32, i64)) -> Partitions {
    Partitions {
        current_leader_epoch: 0,
        fetch_offset: p.1,
        log_start_offset: 0,
        partition: p.0,
        partition_max_bytes: 131072i32,
    }
}

/// The requests for the partitions, each from its offset, in order.
pub fn mk_fetch_requests(fetch_offset: &[(i32, i64)]) -> (r: Vec<Partitions>)
    ensures
        r@ == fetch_offset@.map_values(|p: (i32, i64)| fetch_partition(p)),
{
    let mut out: Vec<Partitions> = Vec::new();
    let mut i: usize = 0;
    while i < fetch_offset.len()
        invariant
            i <= fetch_offset@.len(),
            out@ =~= fetch_offset@.take(i as int).map_values(|p: (i32, i64)| fetch_partition(p)),
        decreases fetch_offset@.len() - i,
    {
        let (partition, offset) = fetch_offset[i];
        out.push(
            Partitions {
                current_leader_epoch: 0,
                fetch_offset: offset,
                log_start_offset: 0,
                partition,
                partition_max_bytes: 1024 * 128,
            },
        );
        proof {
            assert(fetch_offset@.take(i + 1) =~= fetch_offset@.take(i as int).push(fetch_offset@[i as int]));
        }
        i = i + 1;
    }
    assert(fetch_offset@.take(i as int) =~= fetch_offset@);
    out
}

impl<I> Consumer<I> {
    /// The connection.
    pub closed spec fn spec_client(&self) -> Client<I> {
        self.client
    }

    /// The member id in the group.
    pub closed spec fn spec_member_id(&self) -> Seq<char> {
        self.member_id@
    }

    /// The consumer group.
    pub closed spec fn spec_group_id(&self) -> Seq<char> {
        self.group_id@
    }

    /// The topic consumed.
    pub closed spec fn spec_topic(&self) -> Seq<char> {
        self.topic@
    }

    /// For each topic, the partitions to fetch with their offsets.
    pub closed spec fn spec_fetch_offsets(&self) -> Seq<(String, Vec<(i32, i64)>)> {
        self.fetch_offsets@
    }

    /// The fetch offsets are in ascending order of their topics' names.
    pub open spec fn wf(&self) -> bool {
        ascending(self.spec_fetch_offsets())
    }

    /// What updating the fetch offsets comes to once the group's committed
    /// offsets are fetched (the reply's error code, and each topic with its
    /// partitions, their error codes and offsets): the first error code, if
    /// any, leaving the consumer as it was; else the fetch offsets become
    /// the reply's topics in ascending order of their names, each with its
    /// partitions and their offsets in order.
    #[verifier::spinoff_prover]
    #[verifier::rlimit(80)]
    pub fn update_fetch_offsets(&mut self, error_code: ErrorCode, topics: &Vec<(String, Vec<(i32, ErrorCode, i64)>)>) -> (r: Result<(), ErrorCode>)
        requires
            first_error(error_code, topics@) is None ==> distinct_topics(topics@),
        ensures
            match first_error(error_code, topics@) {
                Some(e) => r == Err::<(), ErrorCode>(e),
                None => r is Ok,
            },
            r is Err ==> *final(self) == *old(self),
            r is Ok ==> {
                &&& final(self).wf()
                &&& final(self).spec_fetch_offsets().len() == topics@.len()
                &&& forall|i: int| 0 <= i < topics@.len() ==> holds_topic(final(self).spec_fetch_offsets(), #[trigger] topics@[i])
                &&& final(self).spec_client() == old(self).spec_client()
                &&& final(self).spec_member_id() == old(self).spec_member_id()
                &&& final(self).spec_group_id() == old(self).spec_group_id()
                &&& final(self).spec_topic() == old(self).spec_topic()
            },
    {
        if error_code != ErrorCode::NoError {
            return Err(error_code);
        }
        let mut i: usize = 0;
        proof {
            assert(topics@.skip(0) =~= topics@);
        }
        while i < topics.len()
            invariant
                i <= topics@.len(),
                error_code == ErrorCode::NoError,
                topics_error(topics@) == topics_error(topics@.skip(i as int)),
            decreases topics@.len() - i,
        {
            let ghost rest = topics@.skip(i as int);
            assert(rest[0] == topics@[i as int]);
            match find_partition_error(&topics[i].1) {
                Some(e) => {
                    assert(partition_error(rest[0].1@) == Some(e));
                    assert(topics_error(rest) == Some(e));
                    return Err(e);
                },
                None => {},
            }
            assert(rest.drop_first() =~= topics@.skip(i + 1));
            i = i + 1;
        }
        assert(topics@.skip(i as int).len() == 0);
        assert(first_error(error_code, topics@) is None);
        let mut out: Vec<(String, Vec<(i32, i64)>)> = Vec::new();
        let mut i: usize = 0;
        while i < topics.len()
            invariant
                i <= topics@.len(),
                distinct_topics(topics@),
                out@.len() == i,
                ascending(out@),
                forall|m: int| 0 <= m < i ==> holds_topic(out@, #[trigger] topics@[m]),
                forall|k: int|
                    0 <= k < out@.len() ==> exists|m: int|
                        0 <= m < i && #[trigger] name_key(out@[k].0@) == name_key(topics@[m].0@),
            decreases topics@.len() - i,
        {
            let name = &topics[i].0;
            let key = name.as_str().as_bytes();
            let j = insert_position(&out, key);
            let entry = (name.clone(), offsets_in(&topics[i].1));
            let ghost before = out@;
            let ghost nk = name_key(topics@[i as int].0@);
            proof {
                assert(key@ == nk);
                // every name already held differs from the new one
                assert forall|k: int| 0 <= k < before.len() implies name_key(#[trigger] before[k].0@) != nk by {
                    let m = choose|m: int| 0 <= m < i && name_key(before[k].0@) == name_key(topics@[m].0@);
                    assert(name_key(topics@[m].0@) != name_key(topics@[i as int].0@));
                }
                // names from the slot on come after the new one
                assert forall|k: int| j <= k < before.len() implies bytes_lt(nk, name_key(#[trigger] before[k].0@)) by {
                    lemma_lt_total(name_key(before[j as int].0@), nk);
                    if k > j {
                        lemma_lt_transitive(nk, name_key(before[j as int].0@), name_key(before[k].0@));
                    }
                }
            }
            out.insert(j, entry);
            proof {
                let after = out@;
                assert(after[j as int].0@ == topics@[i as int].0@);
                assert forall|a: int, b: int| 0 <= a < b < after.len() implies bytes_lt(
                    name_key(#[trigger] after[a].0@),
                    name_key(#[trigger] after[b].0@),
                ) by {
                    if a < j && b == j {
                    } else if a < j && b > j {
                        assert(after[b] == before[b - 1]);
                        lemma_lt_transitive(name_key(before[a].0@), nk, name_key(before[b - 1].0@));
                    } else if a == j {
                        assert(after[b] == before[b - 1]);
                    } else if a < j {
                        assert(after[b] == before[b]);
                    } else {
                        assert(after[a] == before[a - 1]);
                        assert(after[b] == before[b - 1]);
                    }
                }
                assert forall|m: int| 0 <= m < i + 1 implies holds_topic(after, #[trigger] topics@[m]) by {
                    if m == i {
                        assert(after[j as int] == entry);
                    } else {
                        assert(holds_topic(before, topics@[m]));
                        let k = choose|k: int|
                            0 <= k < before.len() && #[trigger] before[k].0@ == topics@[m].0@ && before[k].1@
                                == offsets_of(topics@[m].1@);
                        if k < j {
                            assert(after[k] == before[k]);
                        } else {
                            assert(after[k + 1] == before[k]);
                        }
                    }
                }
                assert forall|k: int| 0 <= k < after.len() implies exists|m: int|
                    0 <= m < i + 1 && #[trigger] name_key(after[k].0@) == name_key(topics@[m].0@) by {
                    if k == j {
                        assert(name_key(after[k].0@) == name_key(topics@[i as int].0@));
                    } else {
                        let kk = if k < j { k } else { k - 1 };
                        assert(after[k] == before[kk]);
                        let m = choose|m: int| 0 <= m < i && name_key(before[kk].0@) == name_key(topics@[m].0@);
                        assert(name_key(after[k].0@) == name_key(topics@[m].0@));
                    }
                }
            }
            i = i + 1;
        }
        self.fetch_offsets = out;
        Ok(())
    }

    /// A builder with no group and no topic yet.
    pub fn builder() -> (b: Builder)
        ensures
            b.spec_group_id() == Seq::<char>::empty(),
            b.spec_topic() == Seq::<char>::empty(),
    {
        Builder::new()
    }

    /// Commits the consumed offsets: there is nothing to send yet, so it
    /// succeeds and changes nothing.
    pub fn commit(&mut self) -> (r: std::io::Result<()>)
        ensures
            r is Ok,
            *final(self) == *old(self),
    {
        Ok(())
    }

    /// The fetch request for the fetch offsets: as a replica-less client,
    /// waiting up to a second for at least one byte and at most 1 MiB, every
    /// topic in order with its partitions.
    pub fn fetch_request(&self) -> (r: FetchRequest<'_>)
        ensures
            fetches(r, self.spec_fetch_offsets()),
            self.wf() ==> topics_ascending(r),
    {
        fetch_request_for(&self.fetch_offsets)
    }

    /// The connection, with the fetch request for the fetch offsets (as
    /// `fetch_request` gives it), to send the one over the other.
    pub fn fetch_parts(&mut self) -> (r: (&mut Client<I>, FetchRequest<'_>))
        ensures
            *r.0 == old(self).spec_client(),
            fetches(r.1, old(self).spec_fetch_offsets()),
            old(self).wf() ==> topics_ascending(r.1),
            final(self).spec_client() == *final(r.0),
            final(self).spec_member_id() == old(self).spec_member_id(),
            final(self).spec_group_id() == old(self).spec_group_id(),
            final(self).spec_topic() == old(self).spec_topic(),
            final(self).spec_fetch_offsets() == old(self).spec_fetch_offsets(),
    {
        (&mut self.client, fetch_request_for(&self.fetch_offsets))
    }
}

/// `r` is the fetch request for the fetch offsets `offsets`: as a
/// replica-less client, waiting up to a second for at least one byte and at
/// most 1 MiB, every topic in order with its partitions.
pub open spec fn fetches(r: FetchRequest<'_>, offsets: Seq<(String, Vec<(i32, i64)>)>) -> bool {
    &&& r.replica_id == -1
    &&& r.session_epoch == 0
    &&& r.forgotten_topics_data@ == Seq::<ForgottenTopicsData>::empty()
    &&& r.isolation_level == 0
    &&& r.session_id == 0
    &&& r.min_bytes == 1
    &&& r.max_bytes == 1024 * 1024
    &&& r.rack_id@ == Seq::<char>::empty()
    &&& r.max_wait_time == 1000
    &&& r.topics@.len() == offsets.len()
    &&& forall|k: int|
        0 <= k < r.topics@.len() ==> {
            &&& (#[trigger] r.topics@[k]).topic@ == offsets[k].0@
            &&& r.topics@[k].partitions@ == offsets[k].1@.map_values(|p: (i32, i64)| fetch_partition(p))
        }
}

/// The topics of a fetch request are in strictly ascending order of their
/// names.
pub open spec fn topics_ascending(r: FetchRequest<'_>) -> bool {
    forall|i: int, j: int|
        0 <= i < j < r.topics@.len() ==> bytes_lt(
            name_key(#[trigger] r.topics@[i].topic@),
            name_key(#[trigger] r.topics@[j].topic@),
        )
}

/// The fetch request for the fetch offsets.
fn fetch_request_for(fetch_offsets: &Vec<(String, Vec<(i32, i64)>)>) -> (r: FetchRequest<'_>)
    ensures
        fetches(r, fetch_offsets@),
{
    let mut fetch_topics: Vec<Topics<'_>> = Vec::new();
    let mut i: usize = 0;
    while i < fetch_offsets.len()
        invariant
            i <= fetch_offsets@.len(),
            fetch_topics@.len() == i,
            forall|k: int|
                0 <= k < i ==> {
                    &&& (#[trigger] fetch_topics@[k]).topic@ == fetch_offsets@[k].0@
                    &&& fetch_topics@[k].partitions@ == fetch_offsets@[k].1@.map_values(
                        |p: (i32, i64)| fetch_partition(p),
                    )
                },
        decreases fetch_offsets@.len() - i,
    {
        let (topic, fetch_offset) = &fetch_offsets[i];
        fetch_topics.push(Topics { topic: topic.as_str(), partitions: mk_fetch_requests(fetch_offset.as_slice()) });
        i = i + 1;
    }
    let rack_id = "";
    proof {
        reveal_strlit("");
    }
    let r = FetchRequest {
        replica_id: -1,
        session_epoch: 0,
        forgotten_topics_data: Vec::new(),
        isolation_level: 0,
        session_id: 0,
        min_bytes: 1,
        max_bytes: 1024 * 1024,
        rack_id,
        max_wait_time: 1000,
        topics: fetch_topics,
    };
    assert(r.forgotten_topics_data@ == Seq::<ForgottenTopicsData>::empty());
    assert(r.rack_id@ == Seq::<char>::empty());
    assert(r.topics@.len() == fetch_offsets@.len());
    assert(forall|k: int|
        0 <= k < r.topics@.len() ==> {
            &&& (#[trigger] r.topics@[k]).topic@ == fetch_offsets@[k].0@
            &&& r.topics@[k].partitions@ == fetch_offsets@[k].1@.map_values(|p: (i32, i64)| fetch_partition(p))
        });
    r
}

/// The partitions of a fetch response, each with its topic, in the order
/// in which they are walked: partitions are taken from the end of their
/// topic's list.
pub open spec fn topic_items<'a>(topic: &'a str, prs: Seq<PartitionResponses<'a>>) -> Seq<(&'a str, PartitionResponses<'a>)>
    decreases prs.len(),
{
    if prs.len() == 0 {
        Seq::empty()
    } else {
        seq![(topic, prs.last())] + topic_items(topic, prs.drop_last())
    }
}

/// The partitions of the topics `rs`, each with its topic, in the order in
/// which they are walked: topics are taken from the end of the list.
pub open spec fn response_items<'a>(rs: Seq<Responses<'a>>) -> Seq<(&'a str, PartitionResponses<'a>)>
    decreases rs.len(),
{
    if rs.len() == 0 {
        Seq::empty()
    } else {
        topic_items(rs.last().topic, rs.last().partition_responses@) + response_items(rs.drop_last())
    }
}

/// What the next batch of the partitions `items` is: the first partition
/// with an error code gives the error; else the first with records gives
/// its topic and batch; else there is none.
pub open spec fn next_found<'a>(items: Seq<(&'a str, PartitionResponses<'a>)>) -> Result<Option<(&'a str, RecordBatch<RawRecords<'a>>)>, ErrorCode>
    decreases items.len(),
{
    if items.len() == 0 {
        Ok(None)
    } else if items[0].1.partition_header.error_code != ErrorCode::NoError {
        Err(items[0].1.partition_header.error_code)
    } else {
        match items[0].1.record_set {
            Some(b) => Ok(Some((items[0].0, b))),
            None => next_found(items.drop_first()),
        }
    }
}

/// The partitions left to walk once the next batch of `items` is found: on
/// an error, all of them; after a batch, the partition it came from (its
/// records taken) and those after it.
pub open spec fn next_rest<'a>(items: Seq<(&'a str, PartitionResponses<'a>)>) -> Seq<(&'a str, PartitionResponses<'a>)>
    decreases items.len(),
{
    if items.len() == 0 {
        Seq::empty()
    } else if items[0].1.partition_header.error_code != ErrorCode::NoError {
        items
    } else {
        match items[0].1.record_set {
            Some(_) => items.update(
                0,
                (items[0].0, PartitionResponses { partition_header: items[0].1.partition_header, record_set: None }),
            ),
            None => next_rest(items.drop_first()),
        }
    }
}

/// A fetch response, walked batch by batch.
pub struct FetchedRecords<'a> {
    response: FetchResponse<'a>,
    responses: Option<Responses<'a>>,
    partition_responses: Option<PartitionResponses<'a>>,
}

impl<'a> FetchedRecords<'a> {
    /// A partition is only ever walked within a topic.
    pub closed spec fn wf(&self) -> bool {
        self.responses is None ==> self.partition_responses is None
    }

    /// The partitions left to walk, each with its topic, in order.
    pub closed spec fn items(&self) -> Seq<(&'a str, PartitionResponses<'a>)> {
        let current = match self.responses {
            Some(r) => match self.partition_responses {
                Some(p) => seq![(r.topic, p)] + topic_items(r.topic, r.partition_responses@),
                None => topic_items(r.topic, r.partition_responses@),
            },
            None => Seq::empty(),
        };
        current + response_items(self.response.responses@)
    }

    /// Starts a walk over the response's topics.
    pub fn new(response: FetchResponse<'a>) -> (r: Self)
        ensures
            r.wf(),
            r.items() == response_items(response.responses@),
    {
        let r = FetchedRecords { response, responses: None, partition_responses: None };
        assert(r.items() =~= response_items(r.response.responses@));
        r
    }

    /// The next batch of records, with its topic: a partition with an error
    /// code stops the walk with that error, and stays to be met again;
    /// `None` once every partition is walked. The batch keeps its records as
    /// they came, maybe compressed: `RecordBatch::records_into` decompresses
    /// them and reads them.
    pub fn next_batch(&mut self) -> (r: Result<Option<(&'a str, RecordBatch<RawRecords<'a>>)>, ErrorCode>)
        requires
            old(self).wf(),
        ensures
            final(self).wf(),
            r == next_found(old(self).items()),
            final(self).items() == next_rest(old(self).items()),
    {
        loop
            invariant
                self.wf(),
                next_found(self.items()) == next_found(old(self).items()),
                next_rest(self.items()) == next_rest(old(self).items()),
            decreases self.items().len(), self.response.responses@.len(), if self.partition_responses is None {
                1int
            } else {
                0int
            },
        {
            if self.responses.is_some() {
                let ghost head_items = self.items();
                match self.partition_responses.take() {
                    Some(pr) => {
                        let ghost items = seq![(self.responses->0.topic, pr)] + topic_items(
                            self.responses->0.topic,
                            self.responses->0.partition_responses@,
                        ) + response_items(self.response.responses@);
                        assert(head_items =~= items);
                        if pr.partition_header.error_code != ErrorCode::NoError {
                            let e = pr.partition_header.error_code;
                            self.partition_responses = Some(pr);
                            assert(self.items() =~= items);
                            return Err(e);
                        }
                        let topic = self.responses.as_ref().unwrap().topic;
                        let PartitionResponses { partition_header, record_set } = pr;
                        match record_set {
                            Some(batch) => {
                                self.partition_responses = Some(PartitionResponses { partition_header, record_set: None });
                                proof {
                                    assert(items[0].1.record_set == Some(batch));
                                    assert(self.items() =~= next_rest(items));
                                }
                                return Ok(Some((topic, batch)));
                            },
                            None => {
                                proof {
                                    assert(items[0].1.record_set is None);
                                    assert(next_found(items) == next_found(items.drop_first()));
                                    assert(next_rest(items) == next_rest(items.drop_first()));
                                    assert(items.drop_first() =~= self.items());
                                }
                            },
                        }
                    },
                    None => {},
                }
                let mut resp = self.responses.take().unwrap();
                let ghost before = resp.partition_responses@;
                let next = resp.partition_responses.pop();
                let ghost topic = resp.topic;
                self.responses = Some(resp);
                proof {
                    if before.len() > 0 {
                        assert(before.drop_last() =~= resp.partition_responses@);
                    } else {
                        assert(topic_items(topic, before) =~= Seq::<(&'a str, PartitionResponses<'a>)>::empty());
                        assert(topic_items(topic, resp.partition_responses@) =~= Seq::<(&'a str, PartitionResponses<'a>)>::empty());
                    }
                }
                if next.is_some() {
                    self.partition_responses = next;
                    proof {
                        assert(self.items() =~= (seq![(topic, before.last())] + topic_items(topic, before.drop_last()))
                            + response_items(self.response.responses@));
                    }
                    continue;
                }
            }
            let ghost rs = self.response.responses@;
            assert(self.items() =~= response_items(rs));
            let next = self.response.responses.pop();
            match next {
                None => {
                    self.responses = None;
                    self.partition_responses = None;
                    proof {
                        assert(response_items(rs) =~= Seq::<(&'a str, PartitionResponses<'a>)>::empty());
                        assert(self.items() =~= Seq::<(&'a str, PartitionResponses<'a>)>::empty());
                    }
                    return Ok(None);
                },
                Some(resp) => {
                    self.responses = Some(resp);
                    proof {
                        assert(rs.drop_last() =~= self.response.responses@);
                    }
                },
            }
        }
    }
}

/// The batches of the partitions `items`, each with its topic, in order.
pub open spec fn batches_of<'a>(items: Seq<(&'a str, PartitionResponses<'a>)>) -> Seq<(&'a str, RecordBatch<RawRecords<'a>>)>
    decreases items.len(),
{
    if items.len() == 0 {
        Seq::empty()
    } else {
        match items[0].1.record_set {
            Some(b) => seq![(items[0].0, b)] + batches_of(items.drop_first()),
            None => batches_of(items.drop_first()),
        }
    }
}

/// No partition of `items` has an error code.
pub open spec fn no_errors<'a>(items: Seq<(&'a str, PartitionResponses<'a>)>) -> bool {
    forall|k: int| 0 <= k < items.len() ==> (#[trigger] items[k]).1.partition_header.error_code == ErrorCode::NoError
}

/// A partition with an error code stops the walk for good: once the next
/// batch is an error, the walk stops at that partition, so the next call
/// meets the same error again, and leaves the walk where it is.
pub proof fn lemma_error_stays<'a>(items: Seq<(&'a str, PartitionResponses<'a>)>)
    ensures
        next_found(items) is Err ==> {
            &&& next_found(next_rest(items)) == next_found(items)
            &&& next_rest(next_rest(items)) == next_rest(items)
        },
    decreases items.len(),
{
    if items.len() > 0 && items[0].1.partition_header.error_code == ErrorCode::NoError && items[0].1.record_set is None {
        lemma_error_stays(items.drop_first());
    }
}

/// Without errors, the walk gives every batch once, in order: the next batch
/// is the first of them, and what is left to walk holds the others; once they
/// are all taken, there is none.
pub proof fn lemma_walk_order<'a>(items: Seq<(&'a str, PartitionResponses<'a>)>)
    requires
        no_errors(items),
    ensures
        batches_of(items).len() == 0 ==> next_found(items) == Ok::<Option<(&'a str, RecordBatch<RawRecords<'a>>)>, ErrorCode>(None),
        batches_of(items).len() > 0 ==> {
            &&& next_found(items) == Ok::<Option<(&'a str, RecordBatch<RawRecords<'a>>)>, ErrorCode>(Some(batches_of(items)[0]))
            &&& batches_of(next_rest(items)) == batches_of(items).drop_first()
            &&& no_errors(next_rest(items))
        },
    decreases items.len(),
{
    if items.len() > 0 {
        let rest = items.drop_first();
        assert(items[0] == items[0]);
        assert forall|k: int| 0 <= k < rest.len() implies (#[trigger] rest[k]).1.partition_header.error_code
            == ErrorCode::NoError by {
            assert(rest[k] == items[k + 1]);
        }
        lemma_walk_order(rest);
        match items[0].1.record_set {
            Some(b) => {
                let taken = next_rest(items);
                assert(taken.drop_first() =~= rest);
                assert(taken[0].1.record_set is None);
                assert(batches_of(taken) == batches_of(rest));
                assert(batches_of(items).drop_first() =~= batches_of(rest));
                assert forall|k: int| 0 <= k < taken.len() implies (#[trigger] taken[k]).1.partition_header.error_code
                    == ErrorCode::NoError by {
                    if k > 0 {
                        assert(taken[k] == items[k]);
                    }
                }
            },
            None => {},
        }
    }
}

/// What is left to walk after `n` calls of `next_batch` on the partitions
/// `items`.
pub open spec fn rest_after<'a>(items: Seq<(&'a str, PartitionResponses<'a>)>, n: nat) -> Seq<(&'a str, PartitionResponses<'a>)>
    decreases n,
{
    if n == 0 {
        items
    } else {
        next_rest(rest_after(items, (n - 1) as nat))
    }
}

/// Without batches and errors, the walk ends: nothing is left.
proof fn lemma_walk_ends<'a>(items: Seq<(&'a str, PartitionResponses<'a>)>)
    requires
        no_errors(items),
        batches_of(items).len() == 0,
    ensures
        next_rest(items) == Seq::<(&'a str, PartitionResponses<'a>)>::empty(),
    decreases items.len(),
{
    if items.len() > 0 {
        let rest = items.drop_first();
        assert forall|k: int| 0 <= k < rest.len() implies (#[trigger] rest[k]).1.partition_header.error_code
            == ErrorCode::NoError by {
            assert(rest[k] == items[k + 1]);
        }
        assert(items[0].1.partition_header.error_code == ErrorCode::NoError);
        if items[0].1.record_set is Some {
            assert(batches_of(items).len() > 0);
        }
        lemma_walk_ends(rest);
    }
}

/// After `n` steps of a walk without errors, what is left holds the batches
/// from the `n`-th on.
proof fn lemma_rest_after<'a>(items: Seq<(&'a str, PartitionResponses<'a>)>, n: nat)
    requires
        no_errors(items),
        n <= batches_of(items).len(),
    ensures
        no_errors(rest_after(items, n)),
        batches_of(rest_after(items, n)) == batches_of(items).skip(n as int),
    decreases n,
{
    if n == 0 {
        assert(batches_of(items).skip(0) =~= batches_of(items));
    } else {
        let m = (n - 1) as nat;
        lemma_rest_after(items, m);
        let x = rest_after(items, m);
        lemma_walk_order(x);
        assert(batches_of(items).skip(m as int).drop_first() =~= batches_of(items).skip(n as int));
    }
}

/// The whole walk without errors: the `n`-th call of `next_batch` gives the
/// `n`-th batch of the partitions, in walk order, while there are batches
/// left; every call after the last batch gives none.
pub proof fn lemma_walk_all<'a>(items: Seq<(&'a str, PartitionResponses<'a>)>, n: nat)
    requires
        no_errors(items),
    ensures
        n < batches_of(items).len() ==> next_found(rest_after(items, n)) == Ok::<
            Option<(&'a str, RecordBatch<RawRecords<'a>>)>,
            ErrorCode,
        >(Some(batches_of(items)[n as int])),
        n >= batches_of(items).len() ==> next_found(rest_after(items, n))
            == Ok::<Option<(&'a str, RecordBatch<RawRecords<'a>>)>, ErrorCode>(None),
    decreases n,
{
    let len = batches_of(items).len();
    if n < len {
        lemma_rest_after(items, n);
        lemma_walk_order(rest_after(items, n));
        assert(batches_of(items).skip(n as int)[0] == batches_of(items)[n as int]);
    } else if n == len {
        lemma_rest_after(items, n);
        lemma_walk_order(rest_after(items, n));
    } else {
        let m = (n - 1) as nat;
        lemma_walk_all(items, m);
        if m == len {
            lemma_rest_after(items, m);
            lemma_walk_ends(rest_after(items, m));
        } else {
            lemma_walk_ends_after(items, m);
        }
    }
}

/// Once the batches are all taken, nothing more is left to walk.
proof fn lemma_walk_ends_after<'a>(items: Seq<(&'a str, PartitionResponses<'a>)>, n: nat)
    requires
        no_errors(items),
        n > batches_of(items).len(),
    ensures
        rest_after(items, n) == Seq::<(&'a str, PartitionResponses<'a>)>::empty(),
    decreases n,
{
    let len = batches_of(items).len();
    let m = (n - 1) as nat;
    if m == len {
        lemma_rest_after(items, m);
        lemma_walk_ends(rest_after(items, m));
    } else {
        lemma_walk_ends_after(items, m);
        assert(next_rest(Seq::<(&'a str, PartitionResponses<'a>)>::empty()) == Seq::<(&'a str, PartitionResponses<'a>)>::empty());
    }
}

} // verus!
