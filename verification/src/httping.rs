//! The prober's decisions: the data center read from a response, the
//! tally of one address's probes against the data-center filter, and what
//! becomes of a measured address (taken into a queue, or kept in a cache of
//! candidates while both queues are full).
//!
//! Delays are real numbers: the caller sums and compares them, and hands the
//! balancer their bit patterns.
use vstd::prelude::*;
use std::collections::VecDeque;

use crate::backend::{clone_opt_string, opt_view};
use crate::balancer::{AddResult, LoadBalancer};
use crate::config::SAMPLE_WINDOW;
use crate::net::SocketAddr;
use crate::text::{after_last, chars_of, find_from, rfind_char, string_of, sub_chars};

verus! {

broadcast use vstd::seq_lib::group_seq_properties;

/// The data center of a response: the part of its `cf-ray` header after the
/// last `-`; `None` without a readable header.
pub fn extract_colo(cf_ray: Option<&str>) -> (r: Option<String>)
    ensures
        match cf_ray {
            Some(h) => r matches Some(c) && c@ == after_last(h@, '-'),
            None => r is None,
        },
{
    match cf_ray {
        None => None,
        Some(h) => {
            let cs = chars_of(h);
            let seg = match rfind_char(&cs, '-') {
                Some(k) => sub_chars(&cs, k + 1, cs.len()),
                None => cs,
            };
            Some(string_of(&seg))
        },
    }
}

/// `c` with an ASCII capital made small.
pub open spec fn ascii_lower(c: char) -> char {
    if 'A' <= c <= 'Z' {
        ((c as u32) + 32) as char
    } else {
        c
    }
}

/// Whether two texts are equal but for ASCII case.
pub open spec fn eq_ignore_ascii_case(a: Seq<char>, b: Seq<char>) -> bool {
    a.len() == b.len() && forall|i: int| 0 <= i < a.len() ==> ascii_lower(#[trigger] a[i]) == ascii_lower(b[i])
}

fn lower(c: char) -> (r: char)
    ensures
        r == ascii_lower(c),
{
    if 'A' <= c && c <= 'Z' {
        let v: u8 = (c as u32) as u8 + 32;
        v as char
    } else {
        c
    }
}

/// Whether two texts are equal but for ASCII case, as `eq_ignore_ascii_case` says.
pub fn eq_ignore_case(a: &Vec<char>, b: &Vec<char>) -> (r: bool)
    ensures
        r == eq_ignore_ascii_case(a@, b@),
{
    if a.len() != b.len() {
        return false;
    }
    let mut i: usize = 0;
    while i < a.len()
        invariant
            i <= a.len() == b.len(),
            forall|k: int| 0 <= k < i ==> ascii_lower(#[trigger] a@[k]) == ascii_lower(b@[k]),
        decreases a.len() - i,
    {
        if lower(a[i]) != lower(b[i]) {
            return false;
        }
        i = i + 1;
    }
    true
}

/// Whether the data center `dc` passes the filter: it equals one of the
/// filter's entries but for ASCII case.
pub open spec fn colo_allowed(filter: Seq<String>, dc: Seq<char>) -> bool {
    exists|i: int| 0 <= i < filter.len() && eq_ignore_ascii_case(#[trigger] filter[i]@, dc)
}

/// Whether the data center `dc` passes the filter, as `colo_allowed` says.
pub fn colo_matches(filter: &Vec<String>, dc: &str) -> (r: bool)
    ensures
        r == colo_allowed(filter@, dc@),
{
    let d = chars_of(dc);
    let mut i: usize = 0;
    while i < filter.len()
        invariant
            i <= filter.len(),
            d@ == dc@,
            forall|k: int| 0 <= k < i ==> !eq_ignore_ascii_case(#[trigger] filter@[k]@, dc@),
        decreases filter.len() - i,
    {
        let f = chars_of(filter[i].as_str());
        if eq_ignore_case(&f, &d) {
            return true;
        }
        i = i + 1;
    }
    false
}

/// The tally of one address's probes: the answers, the first data center
/// seen, and whether it failed the filter.
pub struct PingTally {
    pub success_count: u8,
    pub colo: Option<String>,
    pub colo_mismatch: bool,
}

/// Whether an answer's data center fails the filter: with a filter, a
/// missing data center or one the filter does not hold.
pub open spec fn colo_fails(filter: Option<Seq<String>>, colo: Option<Seq<char>>) -> bool {
    match filter {
        None => false,
        Some(f) => match colo {
            Some(dc) => !colo_allowed(f, dc),
            None => true,
        },
    }
}

/// The view of an optional filter.
pub open spec fn filter_view(f: Option<Vec<String>>) -> Option<Seq<String>> {
    match f {
        Some(v) => Some(v@),
        None => None,
    }
}

impl PingTally {
    /// Whether the tally vouches for its data center under `filter`: once it
    /// has an answer or a data center, and no mismatch, that data center
    /// passes the filter.
    pub open spec fn tally_sound(&self, filter: Option<Seq<String>>) -> bool {
        !self.colo_mismatch && (self.success_count > 0 || self.colo is Some) ==> !colo_fails(
            filter,
            opt_view(self.colo),
        )
    }

    /// No answers yet.
    pub fn new() -> (r: PingTally)
        ensures
            r.success_count == 0,
            r.colo is None,
            !r.colo_mismatch,
            forall|f: Option<Seq<String>>| #[trigger] r.tally_sound(f),
    {
        PingTally { success_count: 0, colo: None, colo_mismatch: false }
    }

    /// Counts an answer with data center `colo`: until a data center has
    /// been seen, the answer's is checked against the filter and kept. Gives
    /// whether probing goes on after a pause (no mismatch).
    pub fn record_success(&mut self, colo: Option<String>, filter: &Option<Vec<String>>) -> (go_on: bool)
        requires
            old(self).success_count < 255,
        ensures
            final(self).success_count == old(self).success_count + 1,
            old(self).colo is None ==> opt_view(final(self).colo) == opt_view(colo)
                && final(self).colo_mismatch == (old(self).colo_mismatch || colo_fails(filter_view(*filter), opt_view(colo))),
            old(self).colo is Some ==> opt_view(final(self).colo) == opt_view(old(self).colo)
                && final(self).colo_mismatch == old(self).colo_mismatch,
            go_on == !final(self).colo_mismatch,
            old(self).tally_sound(filter_view(*filter)) ==> final(self).tally_sound(filter_view(*filter)),
    {
        self.success_count = self.success_count + 1;
        if self.colo.is_none() {
            match filter {
                Some(f) => {
                    match &colo {
                        Some(dc) => {
                            if !colo_matches(f, dc.as_str()) {
                                self.colo_mismatch = true;
                            }
                        },
                        None => {
                            self.colo_mismatch = true;
                        },
                    }
                },
                None => {},
            }
            self.colo = colo;
        }
        !self.colo_mismatch
    }
}

/// The probe settings (the HTTP client is the caller's): the ports, the
/// host, scheme and path of the probe URL, the timeout and the filter.
pub struct PingConfig {
    pub tls_port: u16,
    pub http_port: u16,
    pub host: String,
    pub scheme: String,
    pub path: String,
    pub timeout_ms: u64,
    pub colo_filter: Option<Vec<String>>,
}

impl PingConfig {
    /// The port that probes connect to: the TLS port for `https`, else the
    /// HTTP port.
    pub fn port(&self) -> (r: u16)
        ensures
            r == (if self.scheme@ == "https"@ {
                self.tls_port
            } else {
                self.http_port
            }),
    {
        proof {
            reveal_strlit("https");
        }
        let https = chars_of("https");
        let s = chars_of(self.scheme.as_str());
        if crate::hyper::eq_chars(&s, &https) {
            self.tls_port
        } else {
            self.http_port
        }
    }
}

/// The prober's settings (the HTTP client is the caller's).
pub struct HttpingConfig {
    pub tls_port: u16,
    pub http_port: u16,
    pub timeout_ms: u64,
    pub delay_limit: u64,
    pub colo_filter: Option<Vec<String>>,
}

/// A measured address waiting for room in the queues.
pub struct Candidate {
    pub addr: SocketAddr,
    pub delay_bits: u32,
    pub colo: Option<String>,
    pub success_count: u8,
}

/// Whether an add took the address.
pub open spec fn added(r: AddResult) -> bool {
    r == AddResult::AddedToPrimary || r == AddResult::AddedToBackup
}

/// How many of `n` candidates taken in a row join the primary queue: those
/// that find it with room.
pub open spec fn primary_share(primary_len: nat, target: nat, n: nat) -> nat {
    if primary_len >= target {
        0
    } else if n < target - primary_len {
        n
    } else {
        (target - primary_len) as nat
    }
}

/// The ids `from`, `from + 1`, ..., `n` of them.
pub open spec fn id_run(from: nat, n: nat) -> Seq<usize> {
    Seq::new(n, |k: int| (from + k) as usize)
}

/// Whether backend `b` is the warming backend made for candidate `c` at
/// `now_ms`, with no connection, sample or failure yet.
pub open spec fn made_for(b: crate::backend::Backend, c: Candidate, now_ms: u64) -> bool {
    &&& b.addr == c.addr
    &&& b.connections == 0
    &&& b.sample_count == 0
    &&& b.consecutive_failures == 0
    &&& b.entered_state_at_ms == now_ms
    &&& b.avg_delay_bits == c.delay_bits
    &&& b.avg_loss_bits == 0
    &&& opt_view(b.colo) == opt_view(c.colo)
    &&& b.state == crate::backend::BackendState::Warming
}

/// Takes cached candidates into the queues, oldest first, until one is
/// refused: a refused candidate
/// stays first in the cache. The taken candidates become new backends, in
/// order, joining the primary queue while it has room and the backup queue
/// after. Gives the outcome of each candidate taken.
pub fn fill_from_cache(cache: &mut VecDeque<Candidate>, lb: &mut LoadBalancer, now_ms: u64) -> (r: Vec<AddResult>)
    requires
        old(lb).wf(),
        old(lb).backends.len() + old(cache)@.len() < usize::MAX,
    ensures
        final(lb).wf(),
        r@.len() <= old(cache)@.len(),
        forall|i: int| 0 <= i < r@.len() ==> #[trigger] r@[i] == (if old(lb).primary.len() + i < old(lb).primary_target {
            AddResult::AddedToPrimary
        } else {
            AddResult::AddedToBackup
        }),
        final(cache)@ == old(cache)@.skip(r@.len() as int),
        r@.len() < old(cache)@.len() ==> (final(lb).has_ip(old(cache)@[r@.len() as int].addr.ip) || (
        final(lb).primary.len() >= final(lb).primary_target && final(lb).backup.len()
            >= final(lb).backup_target)),
        final(lb).backends.len() == old(lb).backends.len() + r@.len(),
        final(lb).backends@.take(old(lb).backends.len() as int) == old(lb).backends@,
        forall|i: int| 0 <= i < r@.len() ==> made_for(#[trigger] final(lb).backends@[old(lb).backends.len() + i], old(cache)@[i], now_ms),
        final(lb).primary@ == old(lb).primary@ + id_run(
            old(lb).backends.len() as nat,
            primary_share(old(lb).primary.len() as nat, old(lb).primary_target as nat, r@.len()),
        ),
        final(lb).backup@ == old(lb).backup@ + id_run(
            (old(lb).backends.len() + primary_share(old(lb).primary.len() as nat, old(lb).primary_target as nat, r@.len())) as nat,
            (r@.len() - primary_share(old(lb).primary.len() as nat, old(lb).primary_target as nat, r@.len())) as nat,
        ),
        forall|i: int| 0 <= i < r@.len() ==> final(lb).has_ip(#[trigger] old(cache)@[i].addr.ip),
        old(cache)@.len() <= SAMPLE_WINDOW ==> final(cache)@.len() <= SAMPLE_WINDOW,
        final(lb).sticky_slots@ == old(lb).sticky_slots@,
        old(lb).keeps_settings(*final(lb)),
        final(lb).primary_target == old(lb).primary_target,
        final(lb).backup_target == old(lb).backup_target,
{
    let ghost c0 = cache@;
    let ghost ob = old(lb).backends@;
    let ghost n0 = old(lb).backends.len() as nat;
    let ghost p0 = old(lb).primary@;
    let ghost b0 = old(lb).backup@;
    let ghost t = old(lb).primary_target as nat;
    let mut r: Vec<AddResult> = Vec::new();
    proof {
        assert(p0 + id_run(n0, 0) =~= p0);
        assert(b0 + id_run(n0, 0) =~= b0);
        assert(lb.backends@.take(n0 as int) =~= ob);
    }
    loop
        invariant_except_break
            lb.wf(),
            r@.len() <= c0.len(),
            cache@ == c0.skip(r@.len() as int),
            forall|i: int| 0 <= i < r@.len() ==> #[trigger] r@[i] == (if p0.len() + i < t {
                AddResult::AddedToPrimary
            } else {
                AddResult::AddedToBackup
            }),
            forall|i: int| 0 <= i < r@.len() ==> lb.has_ip(#[trigger] c0[i].addr.ip),
            lb.backends.len() == n0 + r@.len(),
            lb.backends@.take(n0 as int) == ob,
            forall|i: int| 0 <= i < r@.len() ==> made_for(#[trigger] lb.backends@[n0 + i], c0[i], now_ms),
            lb.primary@ == p0 + id_run(n0, primary_share(p0.len(), t, r@.len())),
            lb.backup@ == b0 + id_run((n0 + primary_share(p0.len(), t, r@.len())) as nat, (r@.len() - primary_share(p0.len(), t, r@.len())) as nat),
            n0 + c0.len() < usize::MAX,
            lb.sticky_slots@ == old(lb).sticky_slots@,
            lb.primary_target == t,
            lb.backup_target == old(lb).backup_target,
            old(lb).keeps_settings(*lb),
        ensures
            lb.wf(),
            r@.len() <= c0.len(),
            cache@ == c0.skip(r@.len() as int),
            forall|i: int| 0 <= i < r@.len() ==> #[trigger] r@[i] == (if p0.len() + i < t {
                AddResult::AddedToPrimary
            } else {
                AddResult::AddedToBackup
            }),
            forall|i: int| 0 <= i < r@.len() ==> lb.has_ip(#[trigger] c0[i].addr.ip),
            r@.len() < c0.len() ==> (lb.has_ip(c0[r@.len() as int].addr.ip) || (lb.primary.len()
                >= lb.primary_target && lb.backup.len() >= lb.backup_target)),
            lb.backends.len() == n0 + r@.len(),
            lb.backends@.take(n0 as int) == ob,
            forall|i: int| 0 <= i < r@.len() ==> made_for(#[trigger] lb.backends@[n0 + i], c0[i], now_ms),
            lb.primary@ == p0 + id_run(n0, primary_share(p0.len(), t, r@.len())),
            lb.backup@ == b0 + id_run((n0 + primary_share(p0.len(), t, r@.len())) as nat, (r@.len() - primary_share(p0.len(), t, r@.len())) as nat),
            lb.sticky_slots@ == old(lb).sticky_slots@,
            lb.primary_target == t,
            lb.backup_target == old(lb).backup_target,
            old(lb).keeps_settings(*lb),
        decreases cache@.len(),
    {
        let c = match cache.pop_front() {
            Some(c) => c,
            None => {
                proof {
                    assert(r@.len() == c0.len());
                }
                break;
            },
        };
        proof {
            assert(c == c0[r@.len() as int]);
        }
        let ghost before = *lb;
        let ghost n = r@.len();
        let ghost ps = primary_share(p0.len(), t, n);
        let res = lb.try_add_backend(c.addr, c.delay_bits, clone_opt_string(&c.colo), now_ms);
        match res {
            AddResult::AddedToPrimary | AddResult::AddedToBackup => {
                r.push(res);
                proof {
                    let id = before.backends.len();
                    assert(id == n0 + n);
                    assert(cache@ =~= c0.skip(r@.len() as int));
                    assert forall|i: int| 0 <= i < r@.len() implies lb.has_ip(#[trigger] c0[i].addr.ip) by {
                        if i < n {
                            assert(before.has_ip(c0[i].addr.ip));
                        }
                    }
                    assert(lb.backends@.take(id as int) == before.backends@);
                    assert(lb.backends@.take(n0 as int) =~= ob) by {
                        assert(before.backends@.take(n0 as int) == ob);
                        assert forall|k: int| 0 <= k < n0 implies lb.backends@[k] == ob[k] by {
                            assert(lb.backends@.take(id as int)[k] == before.backends@[k]);
                            assert(before.backends@.take(n0 as int)[k] == ob[k]);
                        }
                    }
                    assert forall|i: int| 0 <= i < r@.len() implies made_for(#[trigger] lb.backends@[n0 + i], c0[i], now_ms) by {
                        if i < n {
                            assert(lb.backends@.take(id as int)[n0 + i] == before.backends@[n0 + i]);
                        }
                    }
                    if res == AddResult::AddedToPrimary {
                        assert(before.primary.len() < t);
                        assert(ps == n);
                        assert(p0.len() + n < t);
                        assert(primary_share(p0.len(), t, n + 1) == n + 1);
                        assert(lb.primary@ =~= p0 + id_run(n0, (n + 1) as nat)) by {
                            assert(id_run(n0, (n + 1) as nat) =~= id_run(n0, n).push(id));
                        }
                        assert(id_run((n0 + n + 1) as nat, 0) =~= id_run((n0 + n) as nat, 0));
                    } else {
                        assert(before.primary.len() >= t);
                        assert(p0.len() + n >= t);
                        assert(primary_share(p0.len(), t, n + 1) == ps);
                        assert(lb.backup@ =~= b0 + id_run((n0 + ps) as nat, (n + 1 - ps) as nat)) by {
                            assert(id_run((n0 + ps) as nat, (n + 1 - ps) as nat) =~= id_run((n0 + ps) as nat, (n - ps) as nat).push(id));
                        }
                    }
                }
            },
            _ => {
                cache.push_front(c);
                proof {
                    assert(cache@ =~= c0.skip(r@.len() as int));
                }
                break;
            },
        }
    }
    r
}

/// The cache after an offer of `cand` that the queues answered with `r`:
/// the candidate waits at its end when the queues were full and the cache
/// holds less than a window.
pub open spec fn offer_cache(cache: Seq<Candidate>, cand: Candidate, r: Option<AddResult>) -> Seq<Candidate> {
    if r == Some(AddResult::QueueFull) && cache.len() < SAMPLE_WINDOW {
        cache.push(cand)
    } else {
        cache
    }
}

/// Whether the prober's cache is sound under `filter`: at most a window of
/// candidates, each with a data center that passes the filter.
pub open spec fn cache_sound(cache: Seq<Candidate>, filter: Option<Seq<String>>) -> bool {
    &&& cache.len() <= SAMPLE_WINDOW
    &&& forall|i: int| 0 <= i < cache.len() ==> !colo_fails(filter, opt_view(#[trigger] cache[i].colo))
}

/// The prober's loop keeps its cache sound, so that every address it adds
/// to the queues has passed the data-center filter: a tally with an answer
/// and no mismatch vouches for its data center; an offer goes to the queues
/// only without a mismatch and within the delay limit, and adds to the
/// cache only such a candidate, and never past a window; a fill takes
/// candidates from the front of the cache only.
pub proof fn law_probe_loop(
    filter: Option<Seq<String>>,
    t: PingTally,
    cache: Seq<Candidate>,
    cand: Candidate,
    within_delay_limit: bool,
    r: Option<AddResult>,
    taken: nat,
)
    requires
        t.tally_sound(filter),
        t.success_count > 0,
        opt_view(cand.colo) == opt_view(t.colo),
        cache_sound(cache, filter),
        r is Some ==> !t.colo_mismatch && within_delay_limit,
        taken <= cache.len(),
    ensures
        !t.colo_mismatch ==> !colo_fails(filter, opt_view(cand.colo)),
        cache_sound(offer_cache(cache, cand, r), filter),
        cache_sound(cache.skip(taken as int), filter),
        forall|i: int| 0 <= i < taken ==> !colo_fails(filter, opt_view(#[trigger] cache[i].colo)),
{
    let c2 = offer_cache(cache, cand, r);
    if r == Some(AddResult::QueueFull) && cache.len() < SAMPLE_WINDOW {
        assert forall|i: int| 0 <= i < c2.len() implies !colo_fails(filter, opt_view(#[trigger] c2[i].colo)) by {
            if i < cache.len() {
                assert(c2[i] == cache[i]);
            }
        }
    }
    let c3 = cache.skip(taken as int);
    assert forall|i: int| 0 <= i < c3.len() implies !colo_fails(filter, opt_view(#[trigger] c3[i].colo)) by {
        assert(c3[i] == cache[i + taken]);
    }
}

/// One turn of the prober's loop, as its law reads it: a fill from the
/// cache that took `taken` candidates, then the offer of `cand`, measured
/// with the tally `tally`, whether the caller found its delay within the
/// limit, and the queues' answer.
pub struct ProbeStep {
    pub taken: usize,
    pub cand: Candidate,
    pub tally: PingTally,
    pub within_delay_limit: bool,
    pub answer: Option<AddResult>,
}

/// The prober's cache after the turns `steps`, from an empty cache.
pub open spec fn probe_cache_after(steps: Seq<ProbeStep>) -> Seq<Candidate>
    decreases steps.len(),
{
    if steps.len() == 0 {
        Seq::empty()
    } else {
        let st = steps.last();
        offer_cache(probe_cache_after(steps.drop_last()).skip(st.taken as int), st.cand, st.answer)
    }
}

/// Whether a turn is one the loop can make from `cache` under `filter`: the
/// fill takes no more than the cache holds (as `fill_from_cache` does); the
/// candidate carries the data center of its tally, which has an answer and
/// is sound (as `PingTally::new` and `record_success` keep it); the queues
/// answered only an offer without a mismatch and within the delay limit (as
/// `offer_result` does).
pub open spec fn step_ok(cache: Seq<Candidate>, st: ProbeStep, filter: Option<Seq<String>>) -> bool {
    &&& st.taken <= cache.len()
    &&& st.tally.tally_sound(filter)
    &&& st.tally.success_count > 0
    &&& opt_view(st.cand.colo) == opt_view(st.tally.colo)
    &&& st.answer is Some ==> !st.tally.colo_mismatch && st.within_delay_limit
}

/// Whether every turn of `steps` is one the loop can make.
pub open spec fn probe_steps_ok(steps: Seq<ProbeStep>, filter: Option<Seq<String>>) -> bool
    decreases steps.len(),
{
    steps.len() == 0 || (probe_steps_ok(steps.drop_last(), filter) && step_ok(
        probe_cache_after(steps.drop_last()),
        steps.last(),
        filter,
    ))
}

/// Whether `c` was put in the cache by one of the turns `steps`: offered
/// without a mismatch and within the delay limit, and answered with full
/// queues.
pub open spec fn cached_by(steps: Seq<ProbeStep>, c: Candidate) -> bool {
    exists|j: int|
        0 <= j < steps.len() && (#[trigger] steps[j]).cand == c && steps[j].answer == Some(AddResult::QueueFull)
            && steps[j].within_delay_limit && !steps[j].tally.colo_mismatch
}

proof fn lemma_probe_cache(steps: Seq<ProbeStep>, filter: Option<Seq<String>>)
    requires
        probe_steps_ok(steps, filter),
    ensures
        cache_sound(probe_cache_after(steps), filter),
        forall|i: int|
            0 <= i < probe_cache_after(steps).len() ==> cached_by(steps, #[trigger] probe_cache_after(steps)[i]),
    decreases steps.len(),
{
    if steps.len() > 0 {
        let d = steps.drop_last();
        let st = steps.last();
        lemma_probe_cache(d, filter);
        let c = probe_cache_after(d);
        let c2 = c.skip(st.taken as int);
        law_probe_loop(filter, st.tally, c, st.cand, st.within_delay_limit, st.answer, st.taken as nat);
        law_probe_loop(filter, st.tally, c2, st.cand, st.within_delay_limit, st.answer, 0);
        let c3 = probe_cache_after(steps);
        assert forall|i: int| 0 <= i < c3.len() implies cached_by(steps, #[trigger] c3[i]) by {
            if i < c2.len() {
                assert(c3[i] == c[i + st.taken]);
                assert(cached_by(d, c[i + st.taken]));
                let j = choose|j: int|
                    0 <= j < d.len() && (#[trigger] d[j]).cand == c[i + st.taken] && d[j].answer == Some(
                        AddResult::QueueFull,
                    ) && d[j].within_delay_limit && !d[j].tally.colo_mismatch;
                assert(steps[j] == d[j]);
            } else {
                assert(c3[i] == st.cand);
                assert(steps[steps.len() - 1] == st);
            }
        }
    }
}

proof fn lemma_steps_take(steps: Seq<ProbeStep>, filter: Option<Seq<String>>, j: int)
    requires
        probe_steps_ok(steps, filter),
        0 <= j <= steps.len(),
    ensures
        probe_steps_ok(steps.take(j), filter),
    decreases steps.len(),
{
    if j == steps.len() {
        assert(steps.take(j) =~= steps);
    } else {
        lemma_steps_take(steps.drop_last(), filter, j);
        assert(steps.drop_last().take(j) =~= steps.take(j));
    }
}

/// Over any run of the prober's loop from an empty cache, each turn made as
/// the loop makes it: the cache never holds more than a window of
/// candidates, each of which passed the data-center filter and was offered
/// within the delay limit; every address the queues took straight from an
/// offer passed the filter and the delay limit; and every candidate a fill
/// took from the cache passed the filter and was offered within the delay
/// limit.
pub proof fn law_probe_run(filter: Option<Seq<String>>, steps: Seq<ProbeStep>)
    requires
        probe_steps_ok(steps, filter),
    ensures
        cache_sound(probe_cache_after(steps), filter),
        forall|i: int|
            0 <= i < probe_cache_after(steps).len() ==> cached_by(steps, #[trigger] probe_cache_after(steps)[i]),
        forall|j: int|
            0 <= j < steps.len() && (#[trigger] steps[j]).answer is Some && added(steps[j].answer->0)
                ==> steps[j].within_delay_limit && !colo_fails(filter, opt_view(steps[j].cand.colo)),
        forall|j: int, i: int|
            0 <= j < steps.len() && 0 <= i < steps[j].taken ==> !colo_fails(
                filter,
                opt_view((#[trigger] probe_cache_after(steps.take(j))[i]).colo),
            ) && cached_by(steps, probe_cache_after(steps.take(j))[i]),
{
    lemma_probe_cache(steps, filter);
    assert forall|j: int| 0 <= j < steps.len() && (#[trigger] steps[j]).answer is Some && added(steps[j].answer->0)
        implies steps[j].within_delay_limit && !colo_fails(filter, opt_view(steps[j].cand.colo)) by {
        lemma_steps_take(steps, filter, j + 1);
        let t = steps.take(j + 1);
        assert(t.last() == steps[j]);
        assert(t.drop_last() =~= steps.take(j));
    }
    assert forall|j: int, i: int| 0 <= j < steps.len() && 0 <= i < steps[j].taken implies !colo_fails(
        filter,
        opt_view((#[trigger] probe_cache_after(steps.take(j))[i]).colo),
    ) && cached_by(steps, probe_cache_after(steps.take(j))[i]) by {
        lemma_steps_take(steps, filter, j + 1);
        let t = steps.take(j + 1);
        assert(t.last() == steps[j]);
        assert(t.drop_last() =~= steps.take(j));
        lemma_steps_take(steps, filter, j);
        lemma_probe_cache(steps.take(j), filter);
        let c = probe_cache_after(steps.take(j));
        assert(cached_by(steps.take(j), c[i]));
        let k = choose|k: int|
            0 <= k < steps.take(j).len() && (#[trigger] steps.take(j)[k]).cand == c[i] && steps.take(j)[k].answer
                == Some(AddResult::QueueFull) && steps.take(j)[k].within_delay_limit
                && !steps.take(j)[k].tally.colo_mismatch;
        assert(steps[k] == steps.take(j)[k]);
    }
}

/// What becomes of a probe's result: an address that passed the filter and
/// is within the delay limit
/// (which the caller compares) is offered to the queues; when both are full
/// it waits in the cache, unless the cache holds a window of candidates
/// already. Gives the queues' answer, if the address was offered.
pub fn offer_result(
    cache: &mut VecDeque<Candidate>,
    lb: &mut LoadBalancer,
    cand: Candidate,
    colo_mismatch: bool,
    within_delay_limit: bool,
    now_ms: u64,
) -> (r: Option<AddResult>)
    requires
        old(lb).wf(),
        old(lb).backends.len() < usize::MAX,
    ensures
        final(lb).wf(),
        (colo_mismatch || !within_delay_limit) ==> r is None && final(cache)@ == old(cache)@
            && final(lb).backends@ == old(lb).backends@ && final(lb).pooled() == old(lb).pooled(),
        !(colo_mismatch || !within_delay_limit) ==> r == Some(
            if old(lb).has_ip(cand.addr.ip) {
                AddResult::AlreadyExists
            } else if old(lb).primary.len() < old(lb).primary_target {
                AddResult::AddedToPrimary
            } else if old(lb).backup.len() < old(lb).backup_target {
                AddResult::AddedToBackup
            } else {
                AddResult::QueueFull
            },
        ),
        r == Some(AddResult::QueueFull) && old(cache)@.len() < SAMPLE_WINDOW ==> final(cache)@.len()
            == old(cache)@.len() + 1 && final(cache)@.drop_last() == old(cache)@ && final(cache)@.last() == cand,
        !(r == Some(AddResult::QueueFull) && old(cache)@.len() < SAMPLE_WINDOW) ==> final(cache)@ == old(cache)@,
        r matches Some(x) && added(x) ==> final(lb).has_ip(cand.addr.ip),
        r == Some(AddResult::AddedToPrimary) ==> final(lb).primary@ == old(lb).primary@.push(old(lb).backends.len())
            && final(lb).backup@ == old(lb).backup@,
        r == Some(AddResult::AddedToBackup) ==> final(lb).backup@ == old(lb).backup@.push(old(lb).backends.len())
            && final(lb).primary@ == old(lb).primary@,
        r matches Some(x) && added(x) ==> final(lb).backends@ == old(lb).backends@.push(final(lb).backends@.last())
            && made_for(final(lb).backends@.last(), cand, now_ms),
        !(r matches Some(x) && added(x)) ==> final(lb).backends@ == old(lb).backends@ && final(lb).primary@
            == old(lb).primary@ && final(lb).backup@ == old(lb).backup@,
        final(lb).sticky_slots@ == old(lb).sticky_slots@,
        final(lb).primary_target == old(lb).primary_target,
        final(lb).backup_target == old(lb).backup_target,
        final(cache)@ == offer_cache(old(cache)@, cand, r),
        r is Some <==> (!colo_mismatch && within_delay_limit),
        old(cache)@.len() <= SAMPLE_WINDOW ==> final(cache)@.len() <= SAMPLE_WINDOW,
        old(lb).keeps_settings(*final(lb)),
{
    if colo_mismatch || !within_delay_limit {
        return None;
    }
    let ghost before = *lb;
    let res = lb.try_add_backend(cand.addr, cand.delay_bits, clone_opt_string(&cand.colo), now_ms);
    proof {
        if added(res) {
            assert(lb.backends@ =~= before.backends@.push(lb.backends@.last())) by {
                let id = before.backends.len();
                assert forall|k: int| 0 <= k < id implies lb.backends@[k] == before.backends@[k] by {
                    assert(lb.backends@.take(id as int)[k] == before.backends@[k]);
                }
            }
        }
    }
    if res == AddResult::QueueFull && cache.len() < SAMPLE_WINDOW {
        cache.push_back(cand);
    }
    Some(res)
}

} // verus!
