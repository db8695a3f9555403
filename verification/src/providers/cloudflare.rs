//! The Cloudflare speed test: which probes count as samples, the latency and
//! download summaries drawn from them, and the name of the serving location.
//!
//! Times are in microseconds, throughput in whole bits per second, rounded up.

pub mod endpoints;
pub mod table;
pub mod timing;
pub mod trace;

use crate::providers::cloudflare::timing::{parse_server_time_from_response, server_delay};
use crate::providers::cloudflare::trace::{
    all_well_formed, entry_views, field, lookup, pairs_of, parse_trace, trace_lines, TraceEntry,
};
use crate::stats::{
    average, is_average, is_highest, is_jitter, is_lowest, is_median, jitter,
    lemma_average_between, lemma_lowest_below_highest, lemma_magnitudes_of_u64, maximum, median,
    minimum, Ratio,
};
use crate::text::{
    append, bytes_equal, digits_of, remove_byte, two_places, without, write_decimal,
    write_two_places,
};
use vstd::prelude::*;

verus! {

/// Why a measurement gave no summary.
#[derive(Clone, Copy, Debug, PartialEq, Eq, Structural)]
pub enum MeasureError {
    /// The timing header does not end in a decimal number.
    MalformedTiming,
    /// The server's delay does not fit in 64 bits of microseconds.
    TimingOutOfRange,
    /// No probe gave a valid sample.
    NoData,
}

/// One timed request: the time from sending it to the end of the response, and
/// the value of the response's `server-timing` header.
#[derive(Clone, Debug)]
pub struct Probe {
    pub elapsed_micros: u64,
    pub timing_header: Vec<u8>,
}

/// The time a request spent on the network: what is left of the elapsed time
/// after the server's delay, where the elapsed time is the longer of the two.
pub open spec fn net_sample(elapsed_micros: u64, server_delay_micros: u64) -> Option<u64> {
    if elapsed_micros > server_delay_micros {
        Some((elapsed_micros - server_delay_micros) as u64)
    } else {
        None
    }
}

/// The sample that a timed request gives, or `None` where the server's delay
/// is no shorter than the elapsed time.
pub fn net_time(elapsed_micros: u64, server_delay_micros: u64) -> (r: Option<u64>)
    ensures
        r == net_sample(elapsed_micros, server_delay_micros),
{
    if elapsed_micros > server_delay_micros {
        Some(elapsed_micros - server_delay_micros)
    } else {
        None
    }
}

/// The samples that a run of probes gives, in order, or the error of the first
/// probe whose header cannot be read.
pub open spec fn accepted(probes: Seq<Probe>) -> Result<Seq<u64>, MeasureError>
    decreases probes.len(),
{
    if probes.len() == 0 {
        Ok(Seq::<u64>::empty())
    } else {
        match accepted(probes.drop_last()) {
            Err(e) => Err(e),
            Ok(earlier) => match server_delay(probes.last().timing_header@) {
                Err(e) => Err(e),
                Ok(delay) => match net_sample(probes.last().elapsed_micros, delay) {
                    Some(x) => Ok(earlier.push(x)),
                    None => Ok(earlier),
                },
            },
        }
    }
}

/// Once a prefix of the probes has failed, the whole run fails with the same
/// error.
pub proof fn lemma_accepted_error_stays(probes: Seq<Probe>, i: int)
    requires
        0 <= i <= probes.len(),
        accepted(probes.take(i)) is Err,
    ensures
        accepted(probes) == accepted(probes.take(i)),
    decreases probes.len(),
{
    if i == probes.len() {
        assert(probes.take(i) == probes);
    } else {
        assert(probes.drop_last().take(i) == probes.take(i));
        lemma_accepted_error_stays(probes.drop_last(), i);
    }
}

/// Turns timed requests into samples, dropping each probe whose server delay
/// is no shorter than its elapsed time.
pub fn transfer_times(probes: &Vec<Probe>) -> (r: Result<Vec<u64>, MeasureError>)
    ensures
        r matches Ok(v) ==> accepted(probes@) == Ok::<Seq<u64>, MeasureError>(v@) && forall|i: int|
            0 <= i < v@.len() ==> v@[i] > 0,
        r matches Err(e) ==> accepted(probes@) == Err::<Seq<u64>, MeasureError>(e),
{
    let mut samples: Vec<u64> = Vec::new();
    let mut i: usize = 0;
    proof {
        assert(probes@.take(0) =~= Seq::<Probe>::empty());
    }
    while i < probes.len()
        invariant
            0 <= i <= probes@.len(),
            accepted(probes@.take(i as int)) == Ok::<Seq<u64>, MeasureError>(samples@),
            forall|j: int| 0 <= j < samples@.len() ==> samples@[j] > 0,
        decreases probes@.len() - i,
    {
        proof {
            assert(probes@.take(i + 1).drop_last() == probes@.take(i as int));
            assert(probes@.take(i + 1).last() == probes@[i as int]);
        }
        match parse_server_time_from_response(probes[i].timing_header.as_slice()) {
            Err(e) => {
                proof {
                    lemma_accepted_error_stays(probes@, i + 1);
                }
                return Err(e);
            },
            Ok(delay) => {
                match net_time(probes[i].elapsed_micros, delay) {
                    Some(x) => {
                        samples.push(x);
                    },
                    None => {},
                }
            },
        }
        i += 1;
    }
    proof {
        assert(probes@.take(probes@.len() as int) == probes@);
    }
    Ok(samples)
}

/// The summary of a latency measurement, in microseconds.
#[derive(Clone, Copy, Debug, PartialEq, Eq)]
pub struct LatencyInfo {
    pub minimum: Option<u64>,
    pub maximum: Option<u64>,
    pub average: Option<Ratio>,
    pub median: Option<Ratio>,
    pub jitter: Option<Ratio>,
}

/// The summary of a download measurement, in bits per second.
#[derive(Clone, Copy, Debug, PartialEq, Eq)]
pub struct SpeedInfo {
    pub minimum: Option<u64>,
    pub maximum: Option<u64>,
    pub average: Option<Ratio>,
}

/// `info` holds the statistics of the samples `s`, of which there is at least
/// one. Jitter needs two samples and is absent for a single one.
pub open spec fn summarises_latency(s: Seq<u64>, info: LatencyInfo) -> bool {
    &&& info.minimum matches Some(lo) && is_lowest(s, lo)
    &&& info.maximum matches Some(hi) && is_highest(s, hi)
    &&& info.average matches Some(q) && q.wf() && is_average(s, q)
    &&& info.median matches Some(q) && q.wf() && is_median(s, q)
    &&& s.len() < 2 ==> info.jitter is None
    &&& s.len() >= 2 ==> (info.jitter matches Some(q) && q.wf() && is_jitter(s, q))
}

/// `info` holds the statistics of the samples `s`, of which there is at least
/// one.
pub open spec fn summarises_speed(s: Seq<u64>, info: SpeedInfo) -> bool {
    &&& info.minimum matches Some(lo) && is_lowest(s, lo)
    &&& info.maximum matches Some(hi) && is_highest(s, hi)
    &&& info.average matches Some(q) && q.wf() && is_average(s, q)
}

/// The number of probes of a latency measurement: 20 unless the caller names
/// another.
pub fn latency_probe_count(count: Option<u32>) -> (n: u32)
    ensures
        n == (match count {
            Some(c) => c,
            None => 20u32,
        }),
{
    match count {
        Some(c) => c,
        None => 20,
    }
}

/// A copy of the samples.
fn copy_samples(v: &Vec<u64>) -> (out: Vec<u64>)
    ensures
        out@ == v@,
{
    let mut out: Vec<u64> = Vec::new();
    let mut i: usize = 0;
    while i < v.len()
        invariant
            0 <= i <= v@.len(),
            out@ == v@.take(i as int),
        decreases v@.len() - i,
    {
        out.push(v[i]);
        proof {
            assert(out@ =~= v@.take(i + 1));
        }
        i += 1;
    }
    proof {
        assert(v@.take(v@.len() as int) == v@);
    }
    out
}

/// The latency summary of a run of zero-byte requests. A header that cannot be
/// read fails the whole measurement; a run without any valid sample gives no
/// data.
pub fn measure_latency(probes: &Vec<Probe>) -> (r: Result<LatencyInfo, MeasureError>)
    ensures
        match accepted(probes@) {
            Err(e) => r == Err::<LatencyInfo, MeasureError>(e),
            Ok(s) => if s.len() == 0 {
                r == Err::<LatencyInfo, MeasureError>(MeasureError::NoData)
            } else {
                r matches Ok(info) && summarises_latency(s, info)
            },
        },
{
    let latency: Vec<u64> = match transfer_times(probes) {
        Err(e) => {
            return Err(e);
        },
        Ok(v) => v,
    };
    if latency.len() == 0 {
        return Err(MeasureError::NoData);
    }
    proof {
        lemma_magnitudes_of_u64(latency@);
    }
    Ok(
        LatencyInfo {
            minimum: minimum(copy_samples(&latency)),
            maximum: maximum(copy_samples(&latency)),
            average: average(copy_samples(&latency)),
            median: median(copy_samples(&latency)),
            jitter: jitter(latency),
        },
    )
}

/// The throughput of a download of `payload_bytes` bytes in `net_micros`
/// microseconds, in bits per second: the exact quotient where it is a whole
/// number, and the next whole number above it otherwise, so that a download
/// that moved any data never counts as zero.
pub open spec fn bits_per_second(payload_bytes: u32, net_micros: u64) -> u64 {
    let bits = payload_bytes * 8_000_000;
    if bits % (net_micros as int) == 0 {
        (bits / (net_micros as int)) as u64
    } else {
        (bits / (net_micros as int) + 1) as u64
    }
}

/// The throughput of one download in bits per second, rounded up to a whole
/// number: a million of them are one megabit per second. It is the least
/// number of bits per second at which the payload arrives within the time,
/// and it is positive for every payload but the empty one.
pub fn throughput(payload_bytes: u32, net_micros: u64) -> (r: u64)
    requires
        net_micros > 0,
    ensures
        r == bits_per_second(payload_bytes, net_micros),
        payload_bytes * 8_000_000 <= r * net_micros,
        r > 0 ==> (r - 1) * net_micros < payload_bytes * 8_000_000,
        payload_bytes > 0 <==> r > 0,
{
    let bits: u64 = payload_bytes as u64 * 8_000_000;
    let whole: u64 = bits / net_micros;
    let rest: u64 = bits % net_micros;
    proof {
        assert(whole <= bits && bits == whole * net_micros + rest && 0 <= rest < net_micros)
            by (nonlinear_arith)
            requires
                net_micros > 0,
                bits >= 0,
                whole == bits / net_micros,
                rest == bits % net_micros,
        ;
    }
    if rest == 0 {
        proof {
            assert((whole - 1) * net_micros == whole * net_micros - net_micros)
                by (nonlinear_arith);
            if whole == 0 {
                assert(whole * net_micros == 0) by (nonlinear_arith)
                    requires
                        whole == 0,
                ;
            }
        }
        whole
    } else {
        proof {
            assert((whole + 1) * net_micros == whole * net_micros + net_micros)
                by (nonlinear_arith);
        }
        whole + 1
    }
}

/// A download that moved data has a positive throughput.
pub proof fn lemma_bits_per_second_positive(payload_bytes: u32, net_micros: u64)
    requires
        payload_bytes > 0,
        net_micros > 0,
    ensures
        bits_per_second(payload_bytes, net_micros) > 0,
{
    let bits = payload_bytes * 8_000_000;
    let n = net_micros as int;
    assert(0 <= bits / n <= bits && bits == (bits / n) * n + bits % n) by (nonlinear_arith)
        requires
            n > 0,
            bits >= 0,
    ;
    if bits / n == 0 {
        assert((bits / n) * n == 0) by (nonlinear_arith)
            requires
                bits / n == 0,
        ;
    }
}

/// The throughput of each transfer time, in order.
pub open spec fn speeds(payload_bytes: u32, times: Seq<u64>) -> Seq<u64> {
    Seq::new(times.len(), |i: int| bits_per_second(payload_bytes, times[i]))
}

/// The throughput samples of one run of downloads, or why there are none.
pub open spec fn run_speeds(payload_bytes: u32, probes: Seq<Probe>) -> Result<
    Seq<u64>,
    MeasureError,
> {
    match accepted(probes) {
        Err(e) => Err(e),
        Ok(times) => if times.len() == 0 {
            Err(MeasureError::NoData)
        } else {
            Ok(speeds(payload_bytes, times))
        },
    }
}

/// Every accepted sample is a positive time.
pub proof fn lemma_accepted_positive(probes: Seq<Probe>)
    ensures
        accepted(probes) matches Ok(times) ==> forall|i: int|
            0 <= i < times.len() ==> #[trigger] times[i] > 0,
    decreases probes.len(),
{
    if probes.len() > 0 {
        lemma_accepted_positive(probes.drop_last());
    }
}

/// Every throughput sample of a run that downloads data is positive.
pub proof fn lemma_run_speeds_positive(payload_bytes: u32, probes: Seq<Probe>)
    requires
        payload_bytes > 0,
    ensures
        run_speeds(payload_bytes, probes) matches Ok(s) ==> forall|i: int|
            0 <= i < s.len() ==> #[trigger] s[i] > 0,
{
    lemma_accepted_positive(probes);
    if let Ok(times) = accepted(probes) {
        assert forall|i: int| 0 <= i < times.len() implies #[trigger] speeds(
            payload_bytes,
            times,
        )[i] > 0 by {
            lemma_bits_per_second_positive(payload_bytes, times[i]);
        }
    }
}

/// The summary of a run that downloads data is positive and ordered: the
/// smallest sample is above zero, and the average lies between the smallest
/// and the largest.
pub proof fn lemma_speed_summary_ordered(payload_bytes: u32, probes: Seq<Probe>, info: SpeedInfo)
    requires
        payload_bytes > 0,
        run_speeds(payload_bytes, probes) matches Ok(s) && summarises_speed(s, info),
    ensures
        info.minimum matches Some(lo) && lo > 0,
        info.minimum matches Some(lo) && info.maximum matches Some(hi) && info.average matches Some(
            q,
        ) && lo <= hi && q.at_least(lo as int) && q.at_most(hi as int),
{
    lemma_run_speeds_positive(payload_bytes, probes);
    let s = run_speeds(payload_bytes, probes)->Ok_0;
    lemma_lowest_below_highest(s, info.minimum->0, info.maximum->0);
    lemma_average_between(s, info.minimum->0, info.maximum->0, info.average->0);
}

/// The summary of one run of downloads of `nbytes` bytes each (of none, where
/// `nbytes` is absent). Where data was downloaded, every sample is positive,
/// and so is the smallest.
pub fn download(nbytes: Option<u32>, probes: &Vec<Probe>) -> (r: Result<SpeedInfo, MeasureError>)
    ensures
        match run_speeds(
            match nbytes {
                Some(n) => n,
                None => 0u32,
            },
            probes@,
        ) {
            Err(e) => r == Err::<SpeedInfo, MeasureError>(e),
            Ok(s) => r matches Ok(info) && summarises_speed(s, info),
        },
        (nbytes matches Some(n) && n > 0) ==> (r matches Ok(info) ==> info.minimum matches Some(lo)
            && lo > 0),
{
    let payload: u32 = match nbytes {
        Some(n) => n,
        None => 0,
    };
    let xfer_times: Vec<u64> = match transfer_times(probes) {
        Err(e) => {
            return Err(e);
        },
        Ok(v) => v,
    };
    if xfer_times.len() == 0 {
        return Err(MeasureError::NoData);
    }
    let mut speed: Vec<u64> = Vec::new();
    let mut i: usize = 0;
    while i < xfer_times.len()
        invariant
            0 <= i <= xfer_times@.len(),
            forall|j: int| 0 <= j < xfer_times@.len() ==> xfer_times@[j] > 0,
            speed@.len() == i,
            forall|j: int| 0 <= j < i ==> speed@[j] == bits_per_second(payload, xfer_times@[j]),
            payload > 0 ==> forall|j: int| 0 <= j < i ==> speed@[j] > 0,
        decreases xfer_times@.len() - i,
    {
        speed.push(throughput(payload, xfer_times[i]));
        i += 1;
    }
    proof {
        assert(speed@ =~= speeds(payload, xfer_times@));
        lemma_magnitudes_of_u64(speed@);
    }
    let lowest = minimum(copy_samples(&speed));
    let highest = maximum(copy_samples(&speed));
    Ok(SpeedInfo { minimum: lowest, maximum: highest, average: average(speed) })
}

/// One entry of a download plan: the size of each download and how many there
/// are.
#[derive(Clone, Copy, Debug, PartialEq, Eq, Structural)]
pub struct ProfileEntry {
    pub payload_bytes: u32,
    pub repeat_count: u32,
}

/// The download plan: ten downloads of 100 kB, eight of 1 MB, six of 10 MB,
/// four of 25 MB and one of 100 MB.
pub fn download_profile() -> (plan: Vec<ProfileEntry>)
    ensures
        plan@ == seq![
            (ProfileEntry { payload_bytes: 100_000, repeat_count: 10 }),
            (ProfileEntry { payload_bytes: 1_000_000, repeat_count: 8 }),
            (ProfileEntry { payload_bytes: 10_000_000, repeat_count: 6 }),
            (ProfileEntry { payload_bytes: 25_000_000, repeat_count: 4 }),
            (ProfileEntry { payload_bytes: 100_000_000, repeat_count: 1 }),
        ],
{
    let mut plan: Vec<ProfileEntry> = Vec::new();
    plan.push(ProfileEntry { payload_bytes: 100_000, repeat_count: 10 });
    plan.push(ProfileEntry { payload_bytes: 1_000_000, repeat_count: 8 });
    plan.push(ProfileEntry { payload_bytes: 10_000_000, repeat_count: 6 });
    plan.push(ProfileEntry { payload_bytes: 25_000_000, repeat_count: 4 });
    plan.push(ProfileEntry { payload_bytes: 100_000_000, repeat_count: 1 });
    proof {
        assert(plan@ =~= seq![
            (ProfileEntry { payload_bytes: 100_000, repeat_count: 10 }),
            (ProfileEntry { payload_bytes: 1_000_000, repeat_count: 8 }),
            (ProfileEntry { payload_bytes: 10_000_000, repeat_count: 6 }),
            (ProfileEntry { payload_bytes: 25_000_000, repeat_count: 4 }),
            (ProfileEntry { payload_bytes: 100_000_000, repeat_count: 1 }),
        ]);
    }
    plan
}

/// The name of a download size: in `MB` or `kB` where the size is a whole
/// number of millions or thousands of bytes, and in `B` otherwise.
pub open spec fn size_name(payload_bytes: u32) -> Seq<u8> {
    if payload_bytes > 0 && payload_bytes % 1_000_000 == 0 {
        digits_of((payload_bytes / 1_000_000) as nat) + seq![77u8, 66u8]
    } else if payload_bytes > 0 && payload_bytes % 1000 == 0 {
        digits_of((payload_bytes / 1000) as nat) + seq![107u8, 66u8]
    } else {
        digits_of(payload_bytes as nat) + seq![66u8]
    }
}

/// Writes the name of a download size, such as `100kB` or `25MB`.
pub fn size_label(payload_bytes: u32) -> (out: Vec<u8>)
    ensures
        out@ == size_name(payload_bytes),
{
    if payload_bytes > 0 && payload_bytes % 1_000_000 == 0 {
        let mut out = write_decimal((payload_bytes / 1_000_000) as u128);
        out.push(77u8);
        out.push(66u8);
        proof {
            assert(out@ =~= size_name(payload_bytes));
        }
        out
    } else if payload_bytes > 0 && payload_bytes % 1000 == 0 {
        let mut out = write_decimal((payload_bytes / 1000) as u128);
        out.push(107u8);
        out.push(66u8);
        proof {
            assert(out@ =~= size_name(payload_bytes));
        }
        out
    } else {
        let mut out = write_decimal(payload_bytes as u128);
        out.push(66u8);
        proof {
            assert(out@ =~= size_name(payload_bytes));
        }
        out
    }
}

/// The probes of one entry of a download plan.
#[derive(Clone, Debug)]
pub struct Run {
    pub payload_bytes: u32,
    pub probes: Vec<Probe>,
}

/// The throughput samples of a run, or why there are none.
pub open spec fn outcome(run: Run) -> Result<Seq<u64>, MeasureError> {
    run_speeds(run.payload_bytes, run.probes@)
}

/// `summaries` holds, in order, the summary of each of `runs`.
pub open spec fn summarises_runs(runs: Seq<Run>, summaries: Seq<SpeedInfo>) -> bool {
    &&& summaries.len() == runs.len()
    &&& forall|i: int|
        0 <= i < runs.len() ==> (#[trigger] outcome(runs[i]) matches Ok(s) && summarises_speed(
            s,
            summaries[i],
        ))
}

/// Run `i` is the first that gives no summary, and `e` is why.
pub open spec fn first_failure(runs: Seq<Run>, i: int, e: MeasureError) -> bool {
    &&& 0 <= i < runs.len()
    &&& outcome(runs[i]) == Err::<Seq<u64>, MeasureError>(e)
    &&& forall|j: int| 0 <= j < i ==> (#[trigger] outcome(runs[j])) is Ok
}

/// The summaries of the runs of a download plan, in the plan's order; the
/// first run that gives none fails the whole measurement.
pub fn measure_download(runs: &Vec<Run>) -> (r: Result<Vec<SpeedInfo>, MeasureError>)
    ensures
        r matches Ok(summaries) ==> summarises_runs(runs@, summaries@),
        r matches Err(e) ==> exists|i: int| first_failure(runs@, i, e),
{
    let mut summaries: Vec<SpeedInfo> = Vec::new();
    let mut i: usize = 0;
    while i < runs.len()
        invariant
            0 <= i <= runs@.len(),
            summarises_runs(runs@.take(i as int), summaries@),
        decreases runs@.len() - i,
    {
        match download(Some(runs[i].payload_bytes), &runs[i].probes) {
            Err(e) => {
                proof {
                    assert forall|j: int| 0 <= j < i implies (#[trigger] outcome(runs@[j])) is Ok by {
                        assert(runs@.take(i as int)[j] == runs@[j]);
                    }
                    assert(first_failure(runs@, i as int, e));
                }
                return Err(e);
            },
            Ok(info) => {
                let ghost before = summaries@;
                summaries.push(info);
                proof {
                    assert forall|j: int| 0 <= j < i + 1 implies (#[trigger] outcome(
                        runs@.take(i + 1)[j],
                    ) matches Ok(s) && summarises_speed(s, summaries@[j])) by {
                        if j < i {
                            assert(runs@.take(i as int)[j] == runs@.take(i + 1)[j]);
                            assert(summaries@[j] == before[j]);
                        }
                    }
                }
            },
        }
        i += 1;
    }
    proof {
        assert(runs@.take(runs@.len() as int) == runs@);
    }
    Ok(summaries)
}

/// The download speed measurement: the summary of each run of the plan.
pub fn measure_speed(runs: &Vec<Run>) -> (r: Result<Vec<SpeedInfo>, MeasureError>)
    ensures
        r matches Ok(summaries) ==> summarises_runs(runs@, summaries@),
        r matches Err(e) ==> exists|i: int| first_failure(runs@, i, e),
{
    measure_download(runs)
}

/// One known edge location: its airport code and its city.
#[derive(Clone, Debug, PartialEq, Eq)]
pub struct LocationRecord {
    pub iata: Vec<u8>,
    pub city: Vec<u8>,
}

/// What the trace says of the edge in use: its airport code, the client's
/// address and the client's region.
#[derive(Clone, Debug, PartialEq, Eq)]
pub struct ActiveEdgeInfo {
    pub colo: Vec<u8>,
    pub client_ip: Vec<u8>,
    pub loc: Vec<u8>,
}

/// The serving location and the client's address, as shown to the user.
#[derive(Clone, Debug, PartialEq, Eq)]
pub struct ServerInfo {
    pub location: Vec<u8>,
    pub client_ip: Vec<u8>,
}

/// Why the serving location could not be named.
#[derive(Clone, Copy, Debug, PartialEq, Eq, Structural)]
pub enum ResolveError {
    /// A line of the trace does not hold exactly one `=`.
    MalformedTrace,
    /// The location table is no JSON array of objects with the texts `iata`
    /// and `city`.
    MalformedTable,
    /// The trace lacks `colo`, `ip` or `loc`.
    MissingField,
    /// No known location has the trace's airport code.
    UnknownEdge,
}

/// The key of the edge's airport code, `colo`.
pub open spec fn colo_key() -> Seq<u8> {
    seq![99u8, 111u8, 108u8, 111u8]
}

/// The key of the client's address, `ip`.
pub open spec fn ip_key() -> Seq<u8> {
    seq![105u8, 112u8]
}

/// The key of the client's region, `loc`.
pub open spec fn loc_key() -> Seq<u8> {
    seq![108u8, 111u8, 99u8]
}

/// The trace names the edge, the client's address and the client's region.
pub open spec fn names_edge(pairs: Seq<(Seq<u8>, Seq<u8>)>) -> bool {
    &&& lookup(pairs, colo_key()) is Some
    &&& lookup(pairs, ip_key()) is Some
    &&& lookup(pairs, loc_key()) is Some
}

/// What the entries of a trace say of the edge in use.
pub fn active_edge(entries: &Vec<TraceEntry>) -> (r: Result<ActiveEdgeInfo, ResolveError>)
    ensures
        r is Ok <==> names_edge(entry_views(entries@)),
        r matches Ok(edge) ==> {
            &&& lookup(entry_views(entries@), colo_key()) == Some(edge.colo@)
            &&& lookup(entry_views(entries@), ip_key()) == Some(edge.client_ip@)
            &&& lookup(entry_views(entries@), loc_key()) == Some(edge.loc@)
        },
        r matches Err(e) ==> e == ResolveError::MissingField,
{
    let colo_name: Vec<u8> = vec![99u8, 111u8, 108u8, 111u8];
    let ip_name: Vec<u8> = vec![105u8, 112u8];
    let loc_name: Vec<u8> = vec![108u8, 111u8, 99u8];
    proof {
        assert(colo_name@ =~= colo_key());
        assert(ip_name@ =~= ip_key());
        assert(loc_name@ =~= loc_key());
    }
    let colo = match field(entries, colo_name.as_slice()) {
        Some(v) => v,
        None => {
            return Err(ResolveError::MissingField);
        },
    };
    let client_ip = match field(entries, ip_name.as_slice()) {
        Some(v) => v,
        None => {
            return Err(ResolveError::MissingField);
        },
    };
    let loc = match field(entries, loc_name.as_slice()) {
        Some(v) => v,
        None => {
            return Err(ResolveError::MissingField);
        },
    };
    Ok(ActiveEdgeInfo { colo, client_ip, loc })
}

/// `i` is the first record of the table with the airport code `colo`.
pub open spec fn first_match(table: Seq<LocationRecord>, colo: Seq<u8>, i: int) -> bool {
    &&& 0 <= i < table.len()
    &&& table[i].iata@ == colo
    &&& forall|j: int| 0 <= j < i ==> (#[trigger] table[j]).iata@ != colo
}

/// No record of the table has the airport code `colo`.
pub open spec fn no_match(table: Seq<LocationRecord>, colo: Seq<u8>) -> bool {
    forall|j: int| 0 <= j < table.len() ==> (#[trigger] table[j]).iata@ != colo
}

/// The place of the first record with the airport code `colo`.
pub fn find_location(table: &Vec<LocationRecord>, colo: &[u8]) -> (r: Option<usize>)
    ensures
        match r {
            Some(i) => first_match(table@, colo@, i as int),
            None => no_match(table@, colo@),
        },
{
    let mut i: usize = 0;
    while i < table.len()
        invariant
            0 <= i <= table@.len(),
            forall|j: int| 0 <= j < i ==> (#[trigger] table@[j]).iata@ != colo@,
        decreases table@.len() - i,
    {
        if bytes_equal(table[i].iata.as_slice(), colo) {
            return Some(i);
        }
        i += 1;
    }
    None
}

/// `main`, a space, and `note` in round brackets.
pub open spec fn with_note(main: Seq<u8>, note: Seq<u8>) -> Seq<u8> {
    main + seq![32u8, 40u8] + note + seq![41u8]
}

/// Writes `main` followed by `note` in round brackets.
pub fn annotate(main: &[u8], note: &[u8]) -> (out: Vec<u8>)
    ensures
        out@ == with_note(main@, note@),
{
    let mut out: Vec<u8> = Vec::new();
    append(&mut out, main);
    out.push(32u8);
    out.push(40u8);
    append(&mut out, note);
    out.push(41u8);
    proof {
        assert(out@ =~= with_note(main@, note@));
    }
    out
}

/// Names the serving location: reads the trace, finds the first record of the
/// table with the trace's airport code, and writes the city with the code and
/// the client's address with its region.
pub fn get_server_info(trace_body: &[u8], table: &Vec<LocationRecord>) -> (r: Result<
    ServerInfo,
    ResolveError,
>)
    ensures
        ({
            let lines = trace_lines(trace_body@);
            let pairs = pairs_of(lines);
            if !all_well_formed(lines) {
                r == Err::<ServerInfo, ResolveError>(ResolveError::MalformedTrace)
            } else if !names_edge(pairs) {
                r == Err::<ServerInfo, ResolveError>(ResolveError::MissingField)
            } else if no_match(table@, lookup(pairs, colo_key())->0) {
                r == Err::<ServerInfo, ResolveError>(ResolveError::UnknownEdge)
            } else {
                r matches Ok(info) && exists|i: int|
                    {
                        &&& #[trigger] first_match(table@, lookup(pairs, colo_key())->0, i)
                        &&& info.location@ == with_note(table@[i].city@, table@[i].iata@)
                        &&& info.client_ip@ == with_note(
                            lookup(pairs, ip_key())->0,
                            lookup(pairs, loc_key())->0,
                        )
                    }
            }
        }),
{
    let entries = match parse_trace(trace_body) {
        Ok(v) => v,
        Err(e) => {
            return Err(e);
        },
    };
    let edge = match active_edge(&entries) {
        Ok(v) => v,
        Err(e) => {
            return Err(e);
        },
    };
    let at: usize = match find_location(table, edge.colo.as_slice()) {
        Some(i) => i,
        None => {
            return Err(ResolveError::UnknownEdge);
        },
    };
    proof {
        assert(first_match(table@, edge.colo@, at as int));
    }
    let record: &LocationRecord = &table[at];
    Ok(
        ServerInfo {
            location: annotate(record.city.as_slice(), record.iata.as_slice()),
            client_ip: annotate(edge.client_ip.as_slice(), edge.loc.as_slice()),
        },
    )
}

/// The words before the location in a rendered `ServerInfo`: `Server Location:`
/// and a tab.
pub open spec fn location_caption() -> Seq<u8> {
    seq![
        83u8, 101u8, 114u8, 118u8, 101u8, 114u8, 32u8, 76u8, 111u8, 99u8, 97u8, 116u8, 105u8,
        111u8, 110u8, 58u8, 9u8,
    ]
}

/// The words before the address in a rendered `ServerInfo`: a line feed,
/// `Your IP:` and two tabs.
pub open spec fn address_caption() -> Seq<u8> {
    seq![10u8, 89u8, 111u8, 117u8, 114u8, 32u8, 73u8, 80u8, 58u8, 9u8, 9u8]
}

impl ServerInfo {
    /// The two lines shown to the user: the location, without any double
    /// quote in it, and the client's address, each after its caption.
    pub fn render(&self) -> (out: Vec<u8>)
        ensures
            out@ == location_caption() + without(self.location@, 34) + address_caption()
                + self.client_ip@,
    {
        let mut out: Vec<u8> = vec![
            83u8, 101u8, 114u8, 118u8, 101u8, 114u8, 32u8, 76u8, 111u8, 99u8, 97u8, 116u8, 105u8,
            111u8, 110u8, 58u8, 9u8,
        ];
        let caption: Vec<u8> = vec![
            10u8, 89u8, 111u8, 117u8, 114u8, 32u8, 73u8, 80u8, 58u8, 9u8, 9u8,
        ];
        proof {
            assert(out@ =~= location_caption());
            assert(caption@ =~= address_caption());
        }
        let location = remove_byte(self.location.as_slice(), 34);
        append(&mut out, location.as_slice());
        append(&mut out, caption.as_slice());
        append(&mut out, self.client_ip.as_slice());
        out
    }
}

/// The words before the figures of a rendered `LatencyInfo`:
/// `Latency (avg/jitter):` and a tab.
pub open spec fn latency_caption() -> Seq<u8> {
    seq![
        76u8, 97u8, 116u8, 101u8, 110u8, 99u8, 121u8, 32u8, 40u8, 97u8, 118u8, 103u8, 47u8,
        106u8, 105u8, 116u8, 116u8, 101u8, 114u8, 41u8, 58u8, 9u8,
    ]
}

/// The unit after a latency figure: a space and `ms`.
pub open spec fn millisecond_mark() -> Seq<u8> {
    seq![32u8, 109u8, 115u8]
}

/// What stands between the two figures of a rendered `LatencyInfo`: a space,
/// a stroke and a space.
pub open spec fn figure_stroke() -> Seq<u8> {
    seq![32u8, 47u8, 32u8]
}

/// The figure of a statistic in `unit`s with two places after the point, where
/// the statistic is there and can be rounded.
pub open spec fn figure(value: Option<Ratio>, unit: u32) -> Option<Seq<u8>> {
    match value {
        Some(q) => if q.wf() && q.roundable(unit) {
            Some(two_places(q.hundredths(unit)))
        } else {
            None
        },
        None => None,
    }
}

/// Writes a statistic in `unit`s with two places after the point.
pub fn write_figure(value: Option<Ratio>, unit: u32) -> (r: Option<Vec<u8>>)
    requires
        unit > 0,
    ensures
        match figure(value, unit) {
            Some(text) => r matches Some(out) && out@ == text,
            None => r is None,
        },
{
    match value {
        Some(q) => {
            if q.denominator == 0 {
                return None;
            }
            match q.rounded_hundredths(unit) {
                Some(h) => Some(write_two_places(h)),
                None => None,
            }
        },
        None => None,
    }
}

impl LatencyInfo {
    /// The line shown to the user: average and jitter in milliseconds, with
    /// two places after the point. `None` where one of the two is absent or
    /// too large to round.
    pub fn render(&self) -> (r: Option<Vec<u8>>)
        ensures
            match (figure(self.average, 1000), figure(self.jitter, 1000)) {
                (Some(avg), Some(jit)) => r matches Some(out) && out@ == latency_caption() + avg
                    + millisecond_mark() + figure_stroke() + jit + millisecond_mark(),
                _ => r is None,
            },
    {
        let avg = match write_figure(self.average, 1000) {
            Some(v) => v,
            None => {
                return None;
            },
        };
        let jit = match write_figure(self.jitter, 1000) {
            Some(v) => v,
            None => {
                return None;
            },
        };
        let mut out: Vec<u8> = vec![
            76u8, 97u8, 116u8, 101u8, 110u8, 99u8, 121u8, 32u8, 40u8, 97u8, 118u8, 103u8, 47u8,
            106u8, 105u8, 116u8, 116u8, 101u8, 114u8, 41u8, 58u8, 9u8,
        ];
        let mark: Vec<u8> = vec![32u8, 109u8, 115u8];
        let stroke: Vec<u8> = vec![32u8, 47u8, 32u8];
        proof {
            assert(out@ =~= latency_caption());
            assert(mark@ =~= millisecond_mark());
            assert(stroke@ =~= figure_stroke());
        }
        append(&mut out, avg.as_slice());
        append(&mut out, mark.as_slice());
        append(&mut out, stroke.as_slice());
        append(&mut out, jit.as_slice());
        append(&mut out, mark.as_slice());
        Some(out)
    }
}

impl SpeedInfo {
    /// The figure shown to the user: the average in megabits per second, with
    /// two places after the point. `None` where the average is absent or too
    /// large to round.
    pub fn render(&self) -> (r: Option<Vec<u8>>)
        ensures
            match figure(self.average, 1_000_000) {
                Some(text) => r matches Some(out) && out@ == text,
                None => r is None,
            },
    {
        write_figure(self.average, 1_000_000)
    }
}

} // verus!
