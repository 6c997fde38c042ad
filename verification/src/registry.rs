//! The upstream registry: the configured upstream addresses and the
//! subset currently believed live, with random selection, failover
//! bookkeeping, and atomic replacement of the live set by a
//! health-check cycle.

use vstd::prelude::*;
use crate::ProxyError;
use rand::Rng;
use rand::SeedableRng;

verus! {

/// The views of a sequence of address strings.
pub open spec fn addr_views(v: Seq<String>) -> Seq<Seq<char>> {
    v.map_values(|s: String| s@)
}

/// The set of addresses held by a sequence of address strings.
pub open spec fn addr_set(v: Seq<String>) -> Set<Seq<char>> {
    addr_views(v).to_set()
}

/// The outcome of one health probe against one upstream.
#[derive(Debug, PartialEq, Eq, Structural, Clone, Copy)]
pub enum ProbeOutcome {
    /// Opening a connection to the upstream failed.
    ConnectFailed,
    /// The probe request could not be written to the upstream.
    SendFailed,
    /// No response could be read back from the upstream.
    ReadFailed,
    /// A response was read; its status code is carried here.
    Responded(u16),
}

/// An upstream passes a health probe exactly when a response arrived
/// and its status was 200.
pub open spec fn spec_probe_healthy(o: ProbeOutcome) -> bool {
    o == ProbeOutcome::Responded(200u16)
}

/// The addresses classified live by one probe cycle: those configured
/// addresses whose probe came back with status 200.
pub open spec fn healthy_set(conf: Seq<String>, outcomes: Seq<ProbeOutcome>) -> Set<Seq<char>> {
    Set::new(
        |a: Seq<char>|
            exists|i: int|
                0 <= i < conf.len() && conf[i]@ == a && #[trigger] spec_probe_healthy(outcomes[i]),
    )
}

/// Classifies one probe outcome: live exactly when a response with
/// status 200 was received before any I/O error.
pub fn probe_healthy(o: &ProbeOutcome) -> (r: bool)
    ensures
        r == spec_probe_healthy(*o),
{
    match o {
        ProbeOutcome::Responded(status) => *status == 200,
        _ => false,
    }
}

/// The probe request sent to an upstream once per health-check cycle:
/// a `GET` of the configured path, with a `Host` header naming the
/// upstream, and nothing else.
pub fn health_probe_request(path: &str, upstream: &str) -> (r: String)
    ensures
        r@ == "GET "@ + path@ + " HTTP/1.1\r\nHost: "@ + upstream@ + "\r\n\r\n"@,
{
    let mut r = String::from_str("GET ");
    r.append(path);
    r.append(" HTTP/1.1\r\nHost: ");
    r.append(upstream);
    r.append("\r\n\r\n");
    r
}

/// Relies on rand: `StdRng::from_entropy` seeds a generator from the
/// operating system and `Rng::gen_range(0..n)` draws an index that is
/// uniformly distributed below `n`. Nothing beyond the range of the
/// draw is promised of a random value.
#[verifier::external_body]
fn random_below(n: usize) -> (r: usize)
    requires
        n > 0,
    ensures
        r < n,
{
    let mut rng = rand::rngs::StdRng::from_entropy();
    rng.gen_range(0..n)
}

/// The configured upstream addresses and the subset currently believed
/// live. `configured` is fixed at construction; `live` shrinks when a
/// connect attempt fails and is rebuilt wholesale by each health-check
/// cycle.
pub struct UpstreamRegistry {
    configured: Vec<String>,
    live: Vec<String>,
}

/// The live set is exactly empty when the live list is empty.
proof fn lemma_live_set_empty_iff_len_zero(reg: UpstreamRegistry)
    ensures
        reg.live_set().is_empty() <==> reg.live_len() == 0,
{
    if reg.live_len() == 0 {
        assert(reg.live_set() =~= Set::empty());
    } else {
        assert(addr_views(reg.spec_live())[0] == reg.spec_live()[0]@);
        assert(addr_views(reg.spec_live()).contains(reg.spec_live()[0]@));
        assert(reg.live_set().contains(reg.spec_live()[0]@));
        if reg.live_set().is_empty() {
            assert(reg.live_set() == Set::<Seq<char>>::empty());
            assert(false);
        }
    }
}

impl UpstreamRegistry {
    /// The configured address list itself, for spec-level statements
    /// that relate a cycle's outcomes to the addresses they probed.
    pub closed spec fn spec_configured(self) -> Seq<String> {
        self.configured@
    }

    /// The live address list itself.
    pub closed spec fn spec_live(self) -> Seq<String> {
        self.live@
    }

    /// The configured addresses, in configuration order.
    pub open spec fn configured_views(self) -> Seq<Seq<char>> {
        addr_views(self.spec_configured())
    }

    /// The set of configured addresses.
    pub open spec fn configured_set(self) -> Set<Seq<char>> {
        addr_set(self.spec_configured())
    }

    /// The set of addresses currently believed live.
    pub open spec fn live_set(self) -> Set<Seq<char>> {
        addr_set(self.spec_live())
    }

    /// Number of entries of the live list (an upper bound on the
    /// failover attempts still possible).
    pub open spec fn live_len(self) -> nat {
        self.spec_live().len()
    }

    /// Every live address is a configured one.
    pub open spec fn wf(self) -> bool {
        self.live_set() <= self.configured_set()
    }

    /// Creates a registry from the configured addresses; every
    /// configured upstream starts out believed live.
    pub fn new(configured: Vec<String>) -> (reg: Self)
        requires
            configured@.len() >= 1,
        ensures
            reg.configured_views() == addr_views(configured@),
            reg.configured_set() == addr_set(configured@),
            reg.live_set() == addr_set(configured@),
            reg.live_len() == configured@.len(),
            reg.wf(),
    {
        let mut live: Vec<String> = Vec::new();
        let mut i: usize = 0;
        while i < configured.len()
            invariant
                i <= configured@.len(),
                live@.len() == i as int,
                forall|j: int| 0 <= j < i as int ==> #[trigger] live@[j]@ == configured@[j]@,
            decreases configured@.len() - i,
        {
            live.push(configured[i].clone());
            i = i + 1;
        }
        let reg = UpstreamRegistry { configured, live };
        proof {
            assert(addr_views(reg.live@) =~= addr_views(reg.configured@));
            assert(reg.live_set() =~= reg.configured_set());
        }
        reg
    }

    /// How many entries the live list holds.
    pub fn live_count(&self) -> (n: usize)
        ensures
            n == self.live_len(),
    {
        self.live.len()
    }

    /// Whether an address is currently believed live.
    pub fn is_live(&self, addr: &String) -> (r: bool)
        ensures
            r == self.live_set().contains(addr@),
    {
        let mut i: usize = 0;
        while i < self.live.len()
            invariant
                i <= self.live@.len(),
                forall|k: int| 0 <= k < i as int ==> #[trigger] self.live@[k]@ != addr@,
            decreases self.live@.len() - i,
        {
            if self.live[i].eq(addr) {
                proof {
                    assert(addr_views(self.live@)[i as int] == self.live@[i as int]@);
                    assert(addr_views(self.live@).contains(addr@));
                }
                return true;
            }
            i = i + 1;
        }
        proof {
            if addr_views(self.live@).contains(addr@) {
                let w = choose|w: int|
                    0 <= w < addr_views(self.live@).len() && addr_views(self.live@)[w] == addr@;
                assert(self.live@[w]@ == addr@);
                assert(false);
            }
        }
        false
    }

    /// Picks one address drawn at random from the live set, or reports
    /// that no upstream is live. Succeeds exactly when the live set is
    /// non-empty, and the picked address is always a member of it.
    pub fn pick(&self) -> (res: Result<String, ProxyError>)
        ensures
            res is Ok <==> !self.live_set().is_empty(),
            res matches Ok(a) ==> self.live_set().contains(a@),
            res matches Err(e) ==> e == ProxyError::NoLiveUpstreams,
    {
        proof {
            lemma_live_set_empty_iff_len_zero(*self);
        }
        if self.live.len() == 0 {
            Err(ProxyError::NoLiveUpstreams)
        } else {
            let i = random_below(self.live.len());
            let addr = self.live[i].clone();
            proof {
                assert(addr_views(self.live@)[i as int] == self.live@[i as int]@);
                assert(addr_views(self.live@).contains(addr@));
            }
            Ok(addr)
        }
    }

    /// Records that a connect attempt against `addr` failed: every
    /// occurrence of the address leaves the live list, so no later
    /// selection can return it until a health-check cycle re-admits
    /// it. Failover may try again exactly as long as something is
    /// still live; once the last address is gone, it must give up
    /// with `AllUpstreamsDead`.
    pub fn record_connect_failure(&mut self, addr: &String) -> (res: Result<(), ProxyError>)
        ensures
            final(self).live_set() == old(self).live_set().remove(addr@),
            final(self).spec_configured() == old(self).spec_configured(),
            final(self).live_len() <= old(self).live_len(),
            old(self).live_set().contains(addr@) ==> final(self).live_len() < old(self).live_len(),
            res is Err <==> final(self).live_set().is_empty(),
            res matches Err(e) ==> e == ProxyError::AllUpstreamsDead,
            old(self).wf() ==> final(self).wf(),
    {
        let ghost orig: Seq<String> = self.live@;
        let mut kept: Vec<String> = Vec::new();
        let mut removed_any: bool = false;
        let mut i: usize = 0;
        while i < self.live.len()
            invariant
                self.live@ == orig,
                i <= orig.len(),
                kept@.len() <= i as int,
                removed_any ==> kept@.len() < i as int,
                !removed_any ==> kept@.len() == i as int && forall|k: int|
                    0 <= k < i as int ==> #[trigger] orig[k]@ != addr@,
                forall|j: int|
                    0 <= j < kept@.len() ==> #[trigger] kept@[j]@ != addr@ && addr_views(
                        orig,
                    ).contains(kept@[j]@),
                forall|k: int|
                    0 <= k < i as int ==> #[trigger] orig[k]@ == addr@ || addr_views(
                        kept@,
                    ).contains(orig[k]@),
            decreases orig.len() - i,
        {
            let ghost before = kept@;
            if !self.live[i].eq(addr) {
                kept.push(self.live[i].clone());
                proof {
                    assert(kept@ == before.push(orig[i as int]));
                    assert(addr_views(orig)[i as int] == orig[i as int]@);
                    assert(addr_views(orig).contains(orig[i as int]@));
                    assert(addr_views(kept@)[before.len() as int] == orig[i as int]@);
                    assert(addr_views(kept@).contains(orig[i as int]@));
                    assert forall|x: Seq<char>| addr_views(before).contains(x) implies addr_views(
                        kept@,
                    ).contains(x) by {
                        let w = choose|w: int|
                            0 <= w < addr_views(before).len() && addr_views(before)[w] == x;
                        assert(addr_views(kept@)[w] == x);
                    }
                }
            } else {
                removed_any = true;
            }
            i = i + 1;
        }
        self.live = kept;
        proof {
            assert forall|a: Seq<char>| self.live_set().contains(a) implies old(
                self,
            ).live_set().remove(addr@).contains(a) by {
                let w = choose|w: int|
                    0 <= w < addr_views(kept@).len() && addr_views(kept@)[w] == a;
                assert(kept@[w]@ == a);
            }
            assert forall|a: Seq<char>|
                old(self).live_set().remove(addr@).contains(a) implies self.live_set().contains(
                a,
            ) by {
                let w = choose|w: int| 0 <= w < addr_views(orig).len() && addr_views(orig)[w] == a;
                assert(orig[w]@ == a && a != addr@);
            }
            assert(self.live_set() =~= old(self).live_set().remove(addr@));
            lemma_live_set_empty_iff_len_zero(*self);
            if old(self).live_set().contains(addr@) {
                let w = choose|w: int|
                    0 <= w < addr_views(orig).len() && addr_views(orig)[w] == addr@;
                assert(orig[w]@ == addr@);
                assert(removed_any);
            }
        }
        if self.live.len() == 0 {
            Err(ProxyError::AllUpstreamsDead)
        } else {
            Ok(())
        }
    }

    /// Atomically replaces the live set with the result of one
    /// health-check cycle: exactly those configured upstreams whose
    /// probe responded with status 200 are live afterwards, whatever
    /// the order the upstreams were probed in and whatever was live
    /// before. One failing probe classifies only its own upstream;
    /// every configured upstream is always considered.
    pub fn apply_health_cycle(&mut self, outcomes: &Vec<ProbeOutcome>)
        requires
            outcomes@.len() == old(self).spec_configured().len(),
        ensures
            final(self).live_set() == healthy_set(old(self).spec_configured(), outcomes@),
            final(self).spec_configured() == old(self).spec_configured(),
            final(self).wf(),
    {
        let ghost conf: Seq<String> = self.configured@;
        let mut fresh: Vec<String> = Vec::new();
        let mut i: usize = 0;
        while i < self.configured.len()
            invariant
                self.configured@ == conf,
                outcomes@.len() == conf.len(),
                i <= conf.len(),
                forall|j: int|
                    0 <= j < fresh@.len() ==> #[trigger] healthy_set(conf, outcomes@).contains(
                        fresh@[j]@,
                    ),
                forall|k: int|
                    0 <= k < i as int && spec_probe_healthy(#[trigger] outcomes@[k]) ==> addr_views(
                        fresh@,
                    ).contains(conf[k]@),
            decreases conf.len() - i,
        {
            let ghost before = fresh@;
            if probe_healthy(&outcomes[i]) {
                fresh.push(self.configured[i].clone());
                proof {
                    assert(fresh@ == before.push(conf[i as int]));
                    assert(addr_views(fresh@)[before.len() as int] == conf[i as int]@);
                    assert(addr_views(fresh@).contains(conf[i as int]@));
                    assert(spec_probe_healthy(outcomes@[i as int]));
                    assert(healthy_set(conf, outcomes@).contains(conf[i as int]@));
                    assert forall|j: int| 0 <= j < fresh@.len() implies healthy_set(
                        conf,
                        outcomes@,
                    ).contains(fresh@[j]@) by {
                        if j < before.len() {
                            assert(fresh@[j] == before[j]);
                        } else {
                            assert(fresh@[j] == conf[i as int]);
                        }
                    }
                    assert forall|x: Seq<char>| addr_views(before).contains(x) implies addr_views(
                        fresh@,
                    ).contains(x) by {
                        let w = choose|w: int|
                            0 <= w < addr_views(before).len() && addr_views(before)[w] == x;
                        assert(addr_views(fresh@)[w] == x);
                    }
                }
            }
            i = i + 1;
        }
        self.live = fresh;
        proof {
            assert forall|a: Seq<char>| self.live_set().contains(a) implies healthy_set(
                conf,
                outcomes@,
            ).contains(a) by {
                let w = choose|w: int|
                    0 <= w < addr_views(fresh@).len() && addr_views(fresh@)[w] == a;
                assert(fresh@[w]@ == a);
            }
            assert forall|a: Seq<char>|
                healthy_set(conf, outcomes@).contains(a) implies self.live_set().contains(a) by {
                let k = choose|k: int|
                    0 <= k < conf.len() && conf[k]@ == a && spec_probe_healthy(outcomes@[k]);
                assert(addr_views(fresh@).contains(conf[k]@));
            }
            assert(self.live_set() =~= healthy_set(conf, outcomes@));
            assert forall|a: Seq<char>| self.live_set().contains(a) implies self
                .configured_set().contains(a) by {
                let k = choose|k: int|
                    0 <= k < conf.len() && conf[k]@ == a && spec_probe_healthy(outcomes@[k]);
                assert(addr_views(conf)[k] == conf[k]@);
                assert(addr_views(conf).contains(conf[k]@));
            }
        }
    }
}

/// The live set left by a run of failed connect attempts: each failed
/// address is removed in turn, as `record_connect_failure` does.
pub open spec fn live_after_failures(live: Set<Seq<char>>, picks: Seq<Seq<char>>) -> Set<
    Seq<char>,
>
    decreases picks.len(),
{
    if picks.len() == 0 {
        live
    } else {
        live_after_failures(live.remove(picks[0]), picks.drop_first())
    }
}

/// Law: an address removed by a connect failure is absent from the
/// live set for every later selection until a health-check cycle
/// re-admits it; since each pick is a member of the then-current live
/// set, no later pick can return the failed address.
pub proof fn lemma_failed_upstream_not_reselected(
    live: Set<Seq<char>>,
    failed: Seq<char>,
    picked: Seq<char>,
)
    requires
        live.remove(failed).contains(picked),
    ensures
        picked != failed,
{
}

/// A registry's live set is finite (it is held in a list).
pub proof fn lemma_live_set_finite(reg: UpstreamRegistry)
    ensures
        reg.live_set().finite(),
        reg.live_set().len() <= reg.live_len(),
{
    broadcast use vstd::seq_lib::seq_to_set_is_finite;

    addr_views(reg.spec_live()).lemma_cardinality_of_set();
}

/// Law: when every connect attempt fails, failover exhausts the pool.
/// After as many failed attempts as the live set has members, each
/// attempt picking some member of the then-current live set and
/// removing it, the live set is empty — and `pick` then reports that
/// no upstream is live.
pub proof fn lemma_failover_exhausts(live: Set<Seq<char>>, picks: Seq<Seq<char>>)
    requires
        live.finite(),
        picks.len() == live.len(),
        forall|i: int|
            0 <= i < picks.len() ==> live_after_failures(live, #[trigger] picks.take(i)).contains(
                picks[i],
            ),
    ensures
        live_after_failures(live, picks).is_empty(),
    decreases picks.len(),
{
    if picks.len() == 0 {
        live.lemma_len0_is_empty();
    } else {
        assert(picks.take(0) =~= Seq::empty());
        assert(live_after_failures(live, picks.take(0)) == live);
        assert(live.contains(picks[0]));
        let live1 = live.remove(picks[0]);
        let rest = picks.drop_first();
        assert forall|i: int|
            0 <= i < rest.len() implies live_after_failures(live1, #[trigger] rest.take(
            i,
        )).contains(rest[i]) by {
            assert(picks.take(i + 1)[0] == picks[0]);
            assert(picks.take(i + 1).drop_first() =~= rest.take(i));
            assert(live_after_failures(live, picks.take(i + 1)) == live_after_failures(
                live1,
                rest.take(i),
            ));
            assert(live_after_failures(live, picks.take(i + 1)).contains(picks[i + 1]));
            assert(rest[i] == picks[i + 1]);
        }
        lemma_failover_exhausts(live1, rest);
        assert(live_after_failures(live, picks) == live_after_failures(live1, rest));
    }
}

/// Law: a health-check cycle is idempotent. A cycle discards the
/// previous live set and rebuilds it from its probe outcomes alone,
/// so repeating a cycle with unchanged outcomes — in particular a
/// second pass over an unchanged, fully healthy pool — leaves the
/// live set exactly as the first pass left it.
pub proof fn lemma_health_cycle_idempotent(
    after_first: UpstreamRegistry,
    after_second: UpstreamRegistry,
    outcomes: Seq<ProbeOutcome>,
)
    requires
        after_first.spec_configured() == after_second.spec_configured(),
        after_first.live_set() == healthy_set(after_first.spec_configured(), outcomes),
        after_second.live_set() == healthy_set(after_second.spec_configured(), outcomes),
    ensures
        after_second.live_set() == after_first.live_set(),
{
}

/// A cycle in which every configured upstream passes its probe leaves
/// the whole configured set live.
pub proof fn lemma_all_healthy_cycle(conf: Seq<String>, outcomes: Seq<ProbeOutcome>)
    requires
        outcomes.len() == conf.len(),
        forall|i: int| 0 <= i < outcomes.len() ==> #[trigger] spec_probe_healthy(outcomes[i]),
    ensures
        healthy_set(conf, outcomes) == addr_set(conf),
{
    assert forall|a: Seq<char>| healthy_set(conf, outcomes).contains(a) implies addr_set(
        conf,
    ).contains(a) by {
        let k = choose|k: int|
            0 <= k < conf.len() && conf[k]@ == a && spec_probe_healthy(outcomes[k]);
        assert(addr_views(conf)[k] == conf[k]@);
        assert(addr_views(conf).contains(a));
    }
    assert forall|a: Seq<char>| addr_set(conf).contains(a) implies healthy_set(
        conf,
        outcomes,
    ).contains(a) by {
        let w = choose|w: int| 0 <= w < addr_views(conf).len() && addr_views(conf)[w] == a;
        assert(conf[w]@ == a);
        assert(spec_probe_healthy(outcomes[w]));
    }
    assert(healthy_set(conf, outcomes) =~= addr_set(conf));
}

} // verus!
