//! Workers named in TXT records, asked for over HTTPS.

use crate::utils::http::succeeded;
#[allow(unused_imports)]
use crate::utils::http;
use crate::utils::text::{chars_of, decimal, join, match_at, text_of};
#[allow(unused_imports)]
use crate::utils::text;
#[allow(unused_imports)]
use crate::utils::words;
use crate::utils::{PhantomError, PhantomResult};
use vstd::prelude::*;
use vstd::string::StringExecFns;

verus! {

/// The record type of TXT records.
pub const TXT_RECORD: u16 = 16;

pub const WORKER_PREFIX: &'static str = "phantom-worker=";

pub const ACCEPT: &'static str = "application/dns-json";

pub const QUERY_TIMEOUT_SECS: u64 = 10;

/// One record of an answer.
#[derive(Debug)]
pub struct DnsRecord {
    pub data: Option<String>,
    pub record_type: u16,
}

/// An answer to a DNS query.
#[derive(Debug)]
pub struct DohResponse {
    pub answer: Option<Vec<DnsRecord>>,
    pub status: u16,
}

/// `s` without the characters `c` at its end.
pub open spec fn trimmed_end(s: Seq<char>, c: char) -> Seq<char>
    decreases s.len(),
{
    if s.len() > 0 && s.last() == c {
        trimmed_end(s.drop_last(), c)
    } else {
        s
    }
}

/// `s` without the characters `c` at its start.
pub open spec fn trimmed_start(s: Seq<char>, c: char) -> Seq<char>
    decreases s.len(),
{
    if s.len() > 0 && s[0] == c {
        trimmed_start(s.drop_first(), c)
    } else {
        s
    }
}

/// The worker that a record's data names: what stands behind the prefix, quotation marks
/// round the data left away.
pub open spec fn worker_in(data: Seq<char>) -> Option<Seq<char>> {
    let bare = trimmed_end(trimmed_start(data, '"'), '"');
    if text::stands_at(bare, WORKER_PREFIX@, 0) {
        Some(bare.skip(WORKER_PREFIX@.len() as int))
    } else {
        None
    }
}

/// The worker that a record names: TXT records with data only.
pub open spec fn worker_of(record: DnsRecord) -> Option<Seq<char>> {
    match record.data {
        Some(data) if record.record_type == TXT_RECORD => worker_in(data@),
        _ => None,
    }
}

/// The workers that records name, in the records' order.
pub open spec fn workers_of(records: Seq<DnsRecord>) -> Seq<Seq<char>>
    decreases records.len(),
{
    if records.len() == 0 {
        Seq::empty()
    } else {
        let rest = workers_of(records.drop_last());
        match worker_of(records.last()) {
            Some(worker) => rest.push(worker),
            None => rest,
        }
    }
}

/// Where `v[..end]` ends once the characters `c` at its end are left away.
fn end_without(v: &Vec<char>, start: usize, end: usize, c: char) -> (e: usize)
    requires
        start <= end <= v@.len(),
    ensures
        start <= e <= end,
        v@.subrange(start as int, e as int) == trimmed_end(
            v@.subrange(start as int, end as int),
            c,
        ),
    decreases end,
{
    let ghost part = v@.subrange(start as int, end as int);
    if end > start && v[end - 1] == c {
        assert(part.drop_last() =~= v@.subrange(start as int, end - 1));
        end_without(v, start, end - 1, c)
    } else {
        end
    }
}

/// Where `v` starts once the characters `c` at its start are left away.
fn start_without(v: &Vec<char>, from: usize, c: char) -> (s: usize)
    requires
        from <= v@.len(),
    ensures
        from <= s <= v@.len(),
        v@.skip(s as int) == trimmed_start(v@.skip(from as int), c),
    decreases v@.len() - from,
{
    if from < v.len() && v[from] == c {
        assert(v@.skip(from as int).drop_first() =~= v@.skip(from + 1));
        start_without(v, from + 1, c)
    } else {
        from
    }
}

/// The worker that a record's data names.
pub fn parse_worker(data: &str) -> (w: Option<String>)
    ensures
        match worker_in(data@) {
            Some(worker) => w matches Some(text) && text@ == worker,
            None => w is None,
        },
{
    let v = chars_of(data);
    let start: usize = start_without(&v, 0, '"');
    let end: usize = end_without(&v, start, v.len(), '"');
    let bare = text_of(&v, start, end);
    let ghost trimmed = trimmed_end(trimmed_start(data@, '"'), '"');
    assert(v@.skip(0) =~= data@);
    assert(v@.subrange(start as int, v@.len() as int) =~= v@.skip(start as int));
    assert(bare@ == trimmed);
    let letters = chars_of(bare.as_str());
    let prefix = chars_of(WORKER_PREFIX);
    if match_at(&letters, &prefix, 0) {
        let worker = text_of(&letters, prefix.len(), letters.len());
        assert(worker@ =~= trimmed.skip(WORKER_PREFIX@.len() as int));
        Some(worker)
    } else {
        None
    }
}

/// A step of a query that failed.
#[derive(Debug)]
pub enum DohFault {
    Request(String),
    Parse(String),
}

impl DohFault {
    /// The text of the error that a fault becomes.
    pub open spec fn message(&self) -> Seq<char> {
        match self {
            DohFault::Request(why) => "DoH request failed: "@ + why@,
            DohFault::Parse(why) => "Failed to parse DoH response: "@ + why@,
        }
    }

    pub fn into_error(self) -> (e: PhantomError)
        ensures
            e.is_signaling(self.message()),
    {
        match &self {
            DohFault::Request(why) => PhantomError::SignalingError(
                join("DoH request failed: ", why.as_str()),
            ),
            DohFault::Parse(why) => PhantomError::SignalingError(
                join("Failed to parse DoH response: ", why.as_str()),
            ),
        }
    }
}

#[derive(Debug)]
pub struct DohDiscovery {
    pub endpoint: String,
    pub domain: String,
}

impl DohDiscovery {
    pub fn new(endpoint: String, domain: String) -> (d: Self)
        ensures
            d.endpoint == endpoint,
            d.domain == domain,
    {
        DohDiscovery { endpoint, domain }
    }

    /// The address that is asked: the endpoint without slashes at its end, and the query.
    pub fn query_url(&self) -> (url: String)
        ensures
            url@ == trimmed_end(self.endpoint@, '/') + "/dns-query?name="@ + self.domain@
                + "&type=TXT"@,
    {
        let v = chars_of(self.endpoint.as_str());
        let end: usize = end_without(&v, 0, v.len(), '/');
        assert(v@.subrange(0, v@.len() as int) =~= self.endpoint@);
        let mut url = text_of(&v, 0, end);
        url.append("/dns-query?name=");
        url.append(self.domain.as_str());
        url.append("&type=TXT");
        url
    }

    /// Whether an answer with this status is read on; `shown` is how the status reads.
    pub fn check_status(&self, code: u16, shown: &str) -> (r: PhantomResult<()>)
        ensures
            http::is_success(code) ==> r is Ok,
            !http::is_success(code) ==> (r matches Err(e) && e.is_signaling(
                "DoH request returned status "@ + shown@,
            )),
    {
        if succeeded(code) {
            Ok(())
        } else {
            Err(PhantomError::SignalingError(join("DoH request returned status ", shown)))
        }
    }

    /// The workers that an answer names. An answer with an error status is refused.
    pub fn query_workers(&self, body: &DohResponse) -> (r: PhantomResult<Vec<String>>)
        ensures
            body.status != 0 ==> (r matches Err(e) && e.is_signaling(
                "DNS query returned error status: "@ + text::decimal_of(body.status as nat),
            )),
            body.status == 0 ==> (r matches Ok(found) && words::texts(found@) == (
            match body.answer {
                Some(records) => workers_of(records@),
                None => Seq::empty(),
            })),
    {
        if body.status != 0 {
            let number = decimal(body.status as u128);
            return Err(
                PhantomError::SignalingError(
                    join("DNS query returned error status: ", number.as_str()),
                ),
            );
        }
        let mut found: Vec<String> = Vec::new();
        if let Some(records) = &body.answer {
            let mut i: usize = 0;
            assert(records@.take(0) =~= Seq::empty());
            assert(words::texts(found@) =~= workers_of(records@.take(0)));
            while i < records.len()
                invariant
                    i <= records@.len(),
                    words::texts(found@) == workers_of(records@.take(i as int)),
                decreases records@.len() - i,
            {
                let ghost had = words::texts(found@);
                assert(records@.take(i + 1).drop_last() =~= records@.take(i as int));
                assert(records@.take(i + 1).last() == records@[i as int]);
                let record = &records[i];
                if record.record_type == TXT_RECORD {
                    if let Some(data) = &record.data {
                        if let Some(worker) = parse_worker(data.as_str()) {
                            found.push(worker);
                            assert(words::texts(found@) =~= had.push(worker@));
                        }
                    }
                }
                i += 1;
            }
            assert(records@.take(i as int) =~= records@);
        } else {
            assert(words::texts(found@) =~= Seq::empty());
        }
        Ok(found)
    }
}

/// A record's data names the worker behind the prefix, whether or not it stands in quotation
/// marks.
pub proof fn law_workers_stand_behind_the_prefix(worker: Seq<char>)
    requires
        worker.len() > 0 ==> worker.last() != '"',
    ensures
        worker_in("phantom-worker="@ + worker) == Some(worker),
        worker_in(seq!['"'] + ("phantom-worker="@ + worker) + seq!['"']) == Some(worker),
{
    reveal_strlit("phantom-worker=");
    let bare = "phantom-worker="@ + worker;
    assert(bare[0] == 'p');
    assert(bare.len() >= 15);
    assert("phantom-worker="@[14] == '=');
    assert(bare.last() != '"') by {
        if worker.len() > 0 {
            assert(bare.last() == worker.last());
        } else {
            assert(bare.last() == "phantom-worker="@[14]);
        }
    }
    assert(trimmed_start(bare, '"') == bare);
    assert(trimmed_end(bare, '"') == bare);
    assert(text::stands_at(bare, "phantom-worker="@, 0)) by {
        assert(bare.subrange(0, 15) =~= "phantom-worker="@);
    }
    assert(bare.skip(15) =~= worker);
    let quoted = seq!['"'] + bare + seq!['"'];
    let rest = quoted.drop_first();
    assert(rest =~= bare.push('"'));
    assert(rest[0] == 'p');
    assert(trimmed_start(rest, '"') == rest);
    assert(trimmed_start(quoted, '"') == rest);
    assert(rest.drop_last() =~= bare);
    assert(trimmed_end(rest, '"') == bare);
}

/// Data without the prefix names no worker.
pub proof fn law_other_data_names_no_worker(data: Seq<char>)
    requires
        data.len() > 0,
        data[0] != '"',
        data[0] != 'p',
    ensures
        worker_in(data) is None,
{
    reveal_strlit("phantom-worker=");
    assert("phantom-worker="@[0] == 'p');
    assert(trimmed_start(data, '"') == data);
    lemma_trimmed_keeps_its_start(data, '"');
    let bare = trimmed_end(data, '"');
    if text::stands_at(bare, "phantom-worker="@, 0) {
        assert(bare.len() >= 15);
        assert(bare.subrange(0, 15)[0] == bare[0]);
        assert(bare[0] == 'p');
    }
}

proof fn lemma_trimmed_keeps_its_start(s: Seq<char>, c: char)
    ensures
        trimmed_end(s, c).len() <= s.len(),
        trimmed_end(s, c).len() > 0 ==> trimmed_end(s, c)[0] == s[0],
    decreases s.len(),
{
    if s.len() > 0 && s.last() == c {
        lemma_trimmed_keeps_its_start(s.drop_last(), c);
    }
}

/// Only TXT records, which have the type 16, name workers; each that does adds its worker behind
/// those before it.
pub proof fn law_text_records_name_workers(records: Seq<DnsRecord>, record: DnsRecord)
    ensures
        record.record_type != 16 ==> workers_of(records.push(record)) == workers_of(records),
        record.data is None ==> workers_of(records.push(record)) == workers_of(records),
        record.record_type == 16 && record.data is Some && worker_in(
            record.data->Some_0@,
        ) is Some ==> workers_of(records.push(record)) == workers_of(records).push(
            worker_in(record.data->Some_0@)->Some_0,
        ),
        workers_of(Seq::<DnsRecord>::empty()).len() == 0,
{
    let more = records.push(record);
    assert(more.drop_last() =~= records);
    assert(more.last() == record);
}

} // verus!
