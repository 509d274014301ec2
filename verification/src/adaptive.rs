//! The adaptive controller. Telemetry from each completed host scan is
//! folded, keyed by the host's network class, into an exponentially
//! weighted moving average of response time and timeout rate; from those
//! the controller derives the timeout, pacing and parallelism for the
//! next scan of that class. Weights and rates are held in integer
//! per-mille; times in whole milliseconds.

use vstd::prelude::*;

use crate::net::{Address, oct0, oct1, seg0, ipv4_octets};
use vstd::arithmetic::div_mod::{
    lemma_div_is_ordered, lemma_div_multiples_vanish, lemma_div_pos_is_pos,
};

verus! {

/// Response times and timeouts are capped at one day of milliseconds, so
/// the weighted sums stay far from overflow.
pub const MS_CAP: u64 = 86_400_000;

/// The address-derived tag adaptive state is keyed by.
#[derive(Clone, Copy, Debug, PartialEq, Eq, Structural)]
pub enum NetworkClass {
    Loopback,
    LinkLocal,
    Private,
    Public,
}

/// The class of an address: loopback and link-local ranges first, then
/// the private ranges (RFC 1918; unique-local for v6), else public.
pub open spec fn spec_classify_network(a: Address) -> NetworkClass {
    match a {
        Address::V4(x) => {
            if oct0(x) == 127 {
                NetworkClass::Loopback
            } else if oct0(x) == 169 && oct1(x) == 254 {
                NetworkClass::LinkLocal
            } else if oct0(x) == 10 || (oct0(x) == 172 && 16 <= oct1(x) && oct1(x) <= 31) || (oct0(
                x,
            ) == 192 && oct1(x) == 168) {
                NetworkClass::Private
            } else {
                NetworkClass::Public
            }
        },
        Address::V6(x) => {
            if x == 1 {
                NetworkClass::Loopback
            } else if 0xfe80 <= seg0(x) && seg0(x) <= 0xfebf {
                NetworkClass::LinkLocal
            } else if 0xfc00 <= seg0(x) && seg0(x) <= 0xfdff {
                NetworkClass::Private
            } else {
                NetworkClass::Public
            }
        },
    }
}

/// Classify an address into its network class.
pub fn classify_network(a: Address) -> (r: NetworkClass)
    ensures
        r == spec_classify_network(a),
{
    match a {
        Address::V4(x) => {
            let (o0, o1, _, _) = ipv4_octets(x);
            if o0 == 127 {
                NetworkClass::Loopback
            } else if o0 == 169 && o1 == 254 {
                NetworkClass::LinkLocal
            } else if o0 == 10 || (o0 == 172 && 16 <= o1 && o1 <= 31) || (o0 == 192 && o1 == 168) {
                NetworkClass::Private
            } else {
                NetworkClass::Public
            }
        },
        Address::V6(x) => {
            let s0 = x / 0x1_0000_0000_0000_0000_0000_0000_0000;
            if x == 1 {
                NetworkClass::Loopback
            } else if 0xfe80 <= s0 && s0 <= 0xfebf {
                NetworkClass::LinkLocal
            } else if 0xfc00 <= s0 && s0 <= 0xfdff {
                NetworkClass::Private
            } else {
                NetworkClass::Public
            }
        },
    }
}

/// The fast-connect gate and the classifier agree: an address is private
/// or local exactly when its network class is not public.
pub proof fn lemma_private_matches_class(a: Address)
    ensures
        crate::net::spec_is_private_ip(a) == (spec_classify_network(a) != NetworkClass::Public),
{
}

/// The timeout floor for a class, in milliseconds.
pub open spec fn timeout_floor(c: NetworkClass) -> int {
    if c == NetworkClass::Public {
        250
    } else {
        100
    }
}

/// The timeout ceiling for a class, in milliseconds.
pub open spec fn timeout_ceil(c: NetworkClass) -> int {
    if c == NetworkClass::Public {
        5000
    } else {
        500
    }
}

/// One step of the integer EWMA with weight `alpha` per-mille on the new
/// observation: the average moves from `old_avg` toward `obs` by the
/// weighted gap, rounded down.
pub open spec fn ewma_step(alpha: int, old_avg: int, obs: int) -> int {
    if obs >= old_avg {
        old_avg + alpha * (obs - old_avg) / 1000
    } else {
        old_avg - alpha * (old_avg - obs) / 1000
    }
}

/// The distance between two values.
pub open spec fn dist(a: int, b: int) -> int {
    if a >= b {
        a - b
    } else {
        b - a
    }
}

/// One EWMA step lands between the old average and the observation, never
/// increases the distance to the observation, and strictly decreases it
/// while the weighted gap is at least one unit.
pub proof fn lemma_ewma_step_monotone(alpha: int, old_avg: int, obs: int)
    requires
        0 < alpha < 1000,
        0 <= old_avg,
        0 <= obs,
    ensures
        obs >= old_avg ==> old_avg <= ewma_step(alpha, old_avg, obs) <= obs,
        obs < old_avg ==> obs <= ewma_step(alpha, old_avg, obs) <= old_avg,
        dist(obs, ewma_step(alpha, old_avg, obs)) <= dist(obs, old_avg),
        alpha * dist(obs, old_avg) >= 1000 ==> dist(obs, ewma_step(alpha, old_avg, obs)) < dist(
            obs,
            old_avg,
        ),
{
    let d = dist(obs, old_avg);
    let step = alpha * d / 1000;
    lemma_div_pos_is_pos(alpha * d, 1000);
    assert(alpha * d >= 0) by (nonlinear_arith)
        requires alpha > 0, d >= 0;
    assert(alpha * d <= 1000 * d) by (nonlinear_arith)
        requires alpha < 1000, d >= 0;
    lemma_div_is_ordered(alpha * d, 1000 * d, 1000);
    lemma_div_multiples_vanish(d, 1000);
    assert(1000 * d / 1000 == d);
    assert(step <= d);
    if alpha * d >= 1000 {
        lemma_div_is_ordered(1000, alpha * d, 1000);
        assert(step >= 1);
    }
}

/// Repeating the EWMA step on one unchanging observation.
pub open spec fn ewma_iter(alpha: int, start: int, obs: int, k: nat) -> int
    decreases k,
{
    if k == 0 {
        start
    } else {
        ewma_step(alpha, ewma_iter(alpha, start, obs, (k - 1) as nat), obs)
    }
}

/// Feeding identical telemetry drives the average to the observed value:
/// after as many folds as the initial distance, the remaining weighted
/// gap is below one unit, and the distance never grows along the way.
pub proof fn lemma_ewma_converges(alpha: int, start: int, obs: int, k: nat)
    requires
        0 < alpha < 1000,
        0 <= start,
        0 <= obs,
    ensures
        0 <= ewma_iter(alpha, start, obs, k),
        dist(obs, ewma_iter(alpha, start, obs, k)) <= dist(obs, start),
        k >= dist(obs, start) ==> alpha * dist(obs, ewma_iter(alpha, start, obs, k)) < 1000,
    decreases k,
{
    if k == 0 {
        if k >= dist(obs, start) {
            assert(dist(obs, start) == 0);
            assert(alpha * 0 == 0) by (nonlinear_arith);
        }
    } else {
        lemma_ewma_converges(alpha, start, obs, (k - 1) as nat);
        let prev = ewma_iter(alpha, start, obs, (k - 1) as nat);
        lemma_ewma_step_monotone(alpha, prev, obs);
        if k >= dist(obs, start) {
            if alpha * dist(obs, prev) >= 1000 {
                // the distance still shrinks by at least one this fold
                assert(dist(obs, ewma_iter(alpha, start, obs, k)) < dist(obs, prev));
                lemma_ewma_iter_descends(alpha, start, obs, k);
            }
        }
    }
}

/// Iterated steps stay non-negative.
proof fn lemma_ewma_iter_nonneg(alpha: int, start: int, obs: int, k: nat)
    requires
        0 < alpha < 1000,
        0 <= start,
        0 <= obs,
    ensures
        0 <= ewma_iter(alpha, start, obs, k),
    decreases k,
{
    if k > 0 {
        lemma_ewma_iter_nonneg(alpha, start, obs, (k - 1) as nat);
        lemma_ewma_step_monotone(alpha, ewma_iter(alpha, start, obs, (k - 1) as nat), obs);
    }
}

/// While the weighted gap stays at one unit or more, each fold takes the
/// distance down by at least one, so it is bounded by the start distance
/// minus the fold count.
proof fn lemma_ewma_iter_descends(alpha: int, start: int, obs: int, k: nat)
    requires
        0 < alpha < 1000,
        0 <= start,
        0 <= obs,
        alpha * dist(obs, ewma_iter(alpha, start, obs, k)) >= 1000 || k > 0 && alpha * dist(
            obs,
            ewma_iter(alpha, start, obs, (k - 1) as nat),
        ) >= 1000,
    ensures
        dist(obs, ewma_iter(alpha, start, obs, k)) + k <= dist(obs, start),
    decreases k,
{
    if k == 0 {
    } else {
        let prev = ewma_iter(alpha, start, obs, (k - 1) as nat);
        lemma_ewma_iter_nonneg(alpha, start, obs, (k - 1) as nat);
        lemma_ewma_step_monotone(alpha, prev, obs);
        if alpha * dist(obs, prev) >= 1000 {
            lemma_ewma_iter_descends(alpha, start, obs, (k - 1) as nat);
        } else {
            // the step keeps the distance, and the weighted gap cannot
            // grow back above the unit once below it
            assert(dist(obs, ewma_iter(alpha, start, obs, k)) <= dist(obs, prev));
            assert(alpha * dist(obs, ewma_iter(alpha, start, obs, k)) <= alpha * dist(obs, prev))
                by (nonlinear_arith)
                requires
                    alpha > 0,
                    dist(obs, ewma_iter(alpha, start, obs, k)) <= dist(obs, prev),
            ;
            assert(false);
        }
    }
}

/// The adaptive profile of one network class.
pub struct HostProfile {
    pub seen_count: u32,
    pub optimal_timeout_ms: u64,
    pub optimal_rate_ms: u64,
    pub optimal_parallelism: u32,
    pub ewma_response_ms: u64,
    pub ewma_timeout_permille: u32,
}

impl HostProfile {
    /// Averages stay within their scales.
    pub open spec fn wf(&self) -> bool {
        &&& self.ewma_response_ms <= MS_CAP
        &&& self.ewma_timeout_permille <= 1000
    }
}

/// The timeout, pacing and parallelism handed to the next scan; zero
/// means the controller has nothing to say and the operator default
/// stands.
#[derive(Clone, Copy, Debug, PartialEq, Eq, Structural)]
pub struct OptimalParams {
    pub timeout: u64,
    pub rate_limit: u64,
    pub parallelism: u32,
}

/// One port's telemetry, as the scheduler records it: `response_time` is
/// `None` when no reply was observed within the budget, and `is_error`
/// marks a transient probe failure, which never feeds the response mean.
pub struct PortScanResult {
    pub port: u16,
    pub is_open: bool,
    pub is_filtered: bool,
    pub is_error: bool,
    pub response_time: Option<u64>,
    pub service_detected: Option<String>,
}

/// The telemetry of one completed host scan.
pub struct ScanLearningData {
    pub target: Address,
    pub network_type: NetworkClass,
    pub port_results: Vec<PortScanResult>,
    pub scan_duration_ms: u64,
    pub avg_response_time_ms: u64,
    pub timeout_rate_permille: u32,
    pub parallelism_used: u16,
    pub rate_limit_used: u64,
}

impl ScanLearningData {
    /// A simple performance figure: the non-timeout share, per-mille.
    pub fn scan_performance_permille(&self) -> (r: u32)
        requires
            self.timeout_rate_permille <= 1000,
        ensures
            r == 1000 - self.timeout_rate_permille,
    {
        1000 - self.timeout_rate_permille
    }
}

/// The timeout derived from a response-time average: twice the average,
/// clamped to the class bounds.
pub open spec fn derive_timeout(c: NetworkClass, ewma_response: int) -> int {
    let raw = 2 * ewma_response;
    if raw < timeout_floor(c) {
        timeout_floor(c)
    } else if raw > timeout_ceil(c) {
        timeout_ceil(c)
    } else {
        raw
    }
}

/// The pacing step: a timeout rate above 20% doubles the pacing (up to
/// 200 ms, from a floor of 1 ms); below 5% it halves, down to zero.
pub open spec fn step_rate(old_rate: int, ewma_timeout: int) -> int {
    if ewma_timeout > 200 {
        if old_rate >= 200 {
            old_rate
        } else if 2 * old_rate < 1 {
            1
        } else if 2 * old_rate > 200 {
            200
        } else {
            2 * old_rate
        }
    } else if ewma_timeout < 50 {
        old_rate / 2
    } else {
        old_rate
    }
}

/// The parallelism step: below 5% timeouts on a private or loopback
/// class, grow by eight up to 512; above 20%, halve with a floor of
/// eight.
pub open spec fn step_parallelism(c: NetworkClass, old_par: int, ewma_timeout: int) -> int {
    if ewma_timeout < 50 && (c == NetworkClass::Private || c == NetworkClass::Loopback) {
        if old_par + 8 > 512 {
            512
        } else {
            old_par + 8
        }
    } else if ewma_timeout > 200 {
        if old_par / 2 < 8 {
            8
        } else {
            old_par / 2
        }
    } else {
        old_par
    }
}

/// The profile after folding one host's telemetry: the first fold seeds
/// the averages from the observation; later folds move them by one EWMA
/// step; the derived parameters follow the stepped averages.
pub open spec fn folded_profile(
    old_profile: Option<HostProfile>,
    alpha: int,
    c: NetworkClass,
    data: ScanLearningData,
) -> HostProfile {
    match old_profile {
        None => HostProfile {
            seen_count: 1,
            ewma_response_ms: data.avg_response_time_ms,
            ewma_timeout_permille: data.timeout_rate_permille,
            optimal_timeout_ms: derive_timeout(c, data.avg_response_time_ms as int) as u64,
            optimal_rate_ms: step_rate(
                data.rate_limit_used as int,
                data.timeout_rate_permille as int,
            ) as u64,
            optimal_parallelism: step_parallelism(
                c,
                data.parallelism_used as int,
                data.timeout_rate_permille as int,
            ) as u32,
        },
        Some(p) => {
            let er = ewma_step(alpha, p.ewma_response_ms as int, data.avg_response_time_ms as int);
            let et = ewma_step(
                alpha,
                p.ewma_timeout_permille as int,
                data.timeout_rate_permille as int,
            );
            HostProfile {
                seen_count: if p.seen_count == u32::MAX {
                    p.seen_count
                } else {
                    (p.seen_count + 1) as u32
                },
                ewma_response_ms: er as u64,
                ewma_timeout_permille: et as u32,
                optimal_timeout_ms: derive_timeout(c, er) as u64,
                optimal_rate_ms: step_rate(p.optimal_rate_ms as int, et) as u64,
                optimal_parallelism: step_parallelism(c, p.optimal_parallelism as int, et) as u32,
            }
        },
    }
}

/// The profile after `k` folds of one unchanging telemetry record,
/// starting cold. `learn_from_scan` pins each fold to `folded_profile`,
/// so this describes feeding the same host telemetry `k` times.
pub open spec fn folded_iter(
    alpha: int,
    c: NetworkClass,
    data: ScanLearningData,
    k: nat,
) -> HostProfile
    decreases k,
{
    if k <= 1 {
        folded_profile(None, alpha, c, data)
    } else {
        folded_profile(Some(folded_iter(alpha, c, data, (k - 1) as nat)), alpha, c, data)
    }
}

/// Quiet scans of a private or loopback class settle the profile: with no
/// timeouts the response average locks onto the observed mean, the
/// derived timeout is that mean doubled and clamped to the class band,
/// and parallelism grows by eight per fold up to the 512 cap — so it
/// exceeds the starting value by eight whenever the cap leaves room.
/// (For a 20 ms mean the derived timeout is the 100 ms floor.)
pub proof fn lemma_adaptive_settles_on_quiet_class(
    alpha: int,
    c: NetworkClass,
    data: ScanLearningData,
    k: nat,
)
    requires
        0 < alpha < 1000,
        1 <= k,
        data.timeout_rate_permille == 0,
        data.avg_response_time_ms <= MS_CAP,
        c == NetworkClass::Private || c == NetworkClass::Loopback,
    ensures
        ({
            let p = folded_iter(alpha, c, data, k);
            &&& p.ewma_response_ms == data.avg_response_time_ms
            &&& p.ewma_timeout_permille == 0
            &&& p.optimal_timeout_ms as int == derive_timeout(c, data.avg_response_time_ms as int)
            &&& 100 <= p.optimal_timeout_ms <= 500
            &&& p.optimal_parallelism as int == (if data.parallelism_used + 8 * k <= 512 {
                data.parallelism_used + 8 * k
            } else {
                512int
            })
            &&& data.parallelism_used + 8 <= 512 ==> p.optimal_parallelism
                >= data.parallelism_used + 8
        }),
    decreases k,
{
    let m = data.avg_response_time_ms as int;
    if k == 1 {
        assert(ewma_step(alpha, m, m) == m) by {
            assert(alpha * 0 == 0) by (nonlinear_arith);
        }
    } else {
        lemma_adaptive_settles_on_quiet_class(alpha, c, data, (k - 1) as nat);
        let prev = folded_iter(alpha, c, data, (k - 1) as nat);
        assert(ewma_step(alpha, prev.ewma_response_ms as int, m) == m) by {
            assert(alpha * 0 == 0) by (nonlinear_arith);
        }
        assert(ewma_step(alpha, prev.ewma_timeout_permille as int, 0) == 0) by {
            assert(alpha * 0 == 0) by (nonlinear_arith);
        }
    }
}

/// The controller's state: one profile per network class, and the EWMA
/// weight.
pub struct AdaptiveLearning {
    pub loopback: Option<HostProfile>,
    pub link_local: Option<HostProfile>,
    pub private: Option<HostProfile>,
    pub public: Option<HostProfile>,
    /// The weight of the newest observation, per-mille, in (0, 1000).
    pub learning_rate_permille: u32,
    /// Folds required before a profile's parameters are handed out.
    pub min_scans_for_optimization: u32,
}

impl AdaptiveLearning {
    /// The stored profile for a class.
    pub open spec fn profile_for(&self, c: NetworkClass) -> Option<HostProfile> {
        match c {
            NetworkClass::Loopback => self.loopback,
            NetworkClass::LinkLocal => self.link_local,
            NetworkClass::Private => self.private,
            NetworkClass::Public => self.public,
        }
    }

    /// The weight is a proper fraction and every profile is within its
    /// scales.
    pub open spec fn wf(&self) -> bool {
        &&& 0 < self.learning_rate_permille < 1000
        &&& (self.loopback is Some ==> self.loopback->0.wf())
        &&& (self.link_local is Some ==> self.link_local->0.wf())
        &&& (self.private is Some ==> self.private->0.wf())
        &&& (self.public is Some ==> self.public->0.wf())
    }

    /// A cold controller: no profiles, a 0.1 weight, five folds before
    /// parameters are emitted.
    pub fn new() -> (r: AdaptiveLearning)
        ensures
            r.wf(),
            r.loopback is None,
            r.link_local is None,
            r.private is None,
            r.public is None,
            r.learning_rate_permille == 100,
            r.min_scans_for_optimization == 5,
    {
        AdaptiveLearning {
            loopback: None,
            link_local: None,
            private: None,
            public: None,
            learning_rate_permille: 100,
            min_scans_for_optimization: 5,
        }
    }

    /// The parameters for the next scan of this target: the profile's
    /// derived values once its class has been folded often enough, and
    /// zeros (meaning: use the operator defaults) while it is cold.
    pub fn get_optimal_params(&self, target: Address) -> (r: OptimalParams)
        ensures
            r == spec_optimal_params(*self, target),
    {
        let c = classify_network(target);
        let profile = match c {
            NetworkClass::Loopback => &self.loopback,
            NetworkClass::LinkLocal => &self.link_local,
            NetworkClass::Private => &self.private,
            NetworkClass::Public => &self.public,
        };
        match profile {
            Some(p) => {
                if p.seen_count >= self.min_scans_for_optimization {
                    OptimalParams {
                        timeout: p.optimal_timeout_ms,
                        rate_limit: p.optimal_rate_ms,
                        parallelism: p.optimal_parallelism,
                    }
                } else {
                    OptimalParams { timeout: 0, rate_limit: 0, parallelism: 0 }
                }
            },
            None => OptimalParams { timeout: 0, rate_limit: 0, parallelism: 0 },
        }
    }

    /// Fold one host's telemetry into the profile of its network class;
    /// the other classes and the weight are untouched.
    pub fn learn_from_scan(&mut self, data: &ScanLearningData)
        requires
            old(self).wf(),
            data.avg_response_time_ms <= MS_CAP,
            data.timeout_rate_permille <= 1000,
        ensures
            final(self).wf(),
            final(self).learning_rate_permille == old(self).learning_rate_permille,
            final(self).min_scans_for_optimization == old(self).min_scans_for_optimization,
            final(self).profile_for(data.network_type) == Some(
                folded_profile(
                    old(self).profile_for(data.network_type),
                    old(self).learning_rate_permille as int,
                    data.network_type,
                    *data,
                ),
            ),
            forall|c: NetworkClass|
                c != data.network_type ==> final(self).profile_for(c) == old(self).profile_for(c),
    {
        let c = data.network_type;
        let old_profile = match c {
            NetworkClass::Loopback => &self.loopback,
            NetworkClass::LinkLocal => &self.link_local,
            NetworkClass::Private => &self.private,
            NetworkClass::Public => &self.public,
        };
        let alpha = self.learning_rate_permille;
        let fresh: HostProfile = match old_profile {
            None => HostProfile {
                seen_count: 1,
                ewma_response_ms: data.avg_response_time_ms,
                ewma_timeout_permille: data.timeout_rate_permille,
                optimal_timeout_ms: derive_timeout_exec(c, data.avg_response_time_ms),
                optimal_rate_ms: step_rate_exec(data.rate_limit_used, data.timeout_rate_permille),
                optimal_parallelism: step_parallelism_exec(
                    c,
                    data.parallelism_used as u32,
                    data.timeout_rate_permille,
                ),
            },
            Some(p) => {
                let er = ewma_step_exec(alpha, p.ewma_response_ms, data.avg_response_time_ms, MS_CAP);
                let et = ewma_step_exec(
                    alpha,
                    p.ewma_timeout_permille as u64,
                    data.timeout_rate_permille as u64,
                    1000,
                );
                HostProfile {
                    seen_count: if p.seen_count == u32::MAX {
                        p.seen_count
                    } else {
                        p.seen_count + 1
                    },
                    ewma_response_ms: er,
                    ewma_timeout_permille: et as u32,
                    optimal_timeout_ms: derive_timeout_exec(c, er),
                    optimal_rate_ms: step_rate_exec(p.optimal_rate_ms, et as u32),
                    optimal_parallelism: step_parallelism_exec(c, p.optimal_parallelism, et as u32),
                }
            },
        };
        match c {
            NetworkClass::Loopback => self.loopback = Some(fresh),
            NetworkClass::LinkLocal => self.link_local = Some(fresh),
            NetworkClass::Private => self.private = Some(fresh),
            NetworkClass::Public => self.public = Some(fresh),
        }
    }
}

/// What the controller hands out for a target: the derived parameters of
/// its class's profile once folded often enough, zeros while cold.
pub open spec fn spec_optimal_params(al: AdaptiveLearning, target: Address) -> OptimalParams {
    let c = spec_classify_network(target);
    match al.profile_for(c) {
        Some(p) => if p.seen_count >= al.min_scans_for_optimization {
            OptimalParams {
                timeout: p.optimal_timeout_ms,
                rate_limit: p.optimal_rate_ms,
                parallelism: p.optimal_parallelism,
            }
        } else {
            OptimalParams { timeout: 0u64, rate_limit: 0u64, parallelism: 0u32 }
        },
        None => OptimalParams { timeout: 0u64, rate_limit: 0u64, parallelism: 0u32 },
    }
}

/// One EWMA step over bounded inputs, staying within the bound.
fn ewma_step_exec(alpha: u32, old_avg: u64, obs: u64, cap: u64) -> (r: u64)
    requires
        0 < alpha < 1000,
        old_avg <= cap,
        obs <= cap,
        cap <= MS_CAP,
    ensures
        r as int == ewma_step(alpha as int, old_avg as int, obs as int),
        r <= cap,
{
    proof {
        lemma_ewma_step_monotone(alpha as int, old_avg as int, obs as int);
    }
    if obs >= old_avg {
        let gap = obs - old_avg;
        old_avg + (alpha as u64 * gap) / 1000
    } else {
        let gap = old_avg - obs;
        old_avg - (alpha as u64 * gap) / 1000
    }
}

/// The clamped timeout, executable form.
fn derive_timeout_exec(c: NetworkClass, ewma_response: u64) -> (r: u64)
    requires
        ewma_response <= MS_CAP,
    ensures
        r as int == derive_timeout(c, ewma_response as int),
{
    let floor: u64 = if matches!(c, NetworkClass::Public) {
        250
    } else {
        100
    };
    let ceil: u64 = if matches!(c, NetworkClass::Public) {
        5000
    } else {
        500
    };
    let raw = 2 * ewma_response;
    if raw < floor {
        floor
    } else if raw > ceil {
        ceil
    } else {
        raw
    }
}

/// The pacing step, executable form.
fn step_rate_exec(old_rate: u64, ewma_timeout: u32) -> (r: u64)
    ensures
        r as int == step_rate(old_rate as int, ewma_timeout as int),
{
    if ewma_timeout > 200 {
        if old_rate >= 200 {
            old_rate
        } else if old_rate == 0 {
            1
        } else if 2 * old_rate > 200 {
            200
        } else {
            2 * old_rate
        }
    } else if ewma_timeout < 50 {
        old_rate / 2
    } else {
        old_rate
    }
}

/// The parallelism step, executable form.
fn step_parallelism_exec(c: NetworkClass, old_par: u32, ewma_timeout: u32) -> (r: u32)
    ensures
        r as int == step_parallelism(c, old_par as int, ewma_timeout as int),
{
    if ewma_timeout < 50 && (matches!(c, NetworkClass::Private) || matches!(
        c,
        NetworkClass::Loopback,
    )) {
        if old_par > 512 - 8 {
            512
        } else {
            old_par + 8
        }
    } else if ewma_timeout > 200 {
        if old_par / 2 < 8 {
            8
        } else {
            old_par / 2
        }
    } else {
        old_par
    }
}

/// The per-port sample feeding the response-time mean: a measured time,
/// or the estimate (50 ms open, 25 ms closed) when a reply was seen but
/// not timed. A probe error is elided from the mean, and an outcome with
/// no reply at all carries no sample.
pub open spec fn sample_of(p: PortScanResult) -> Option<int> {
    if p.is_error {
        None
    } else {
        match p.response_time {
            Some(t) => Some(t as int),
            None => if p.is_open {
                Some(50)
            } else if !p.is_filtered {
                Some(25)
            } else {
                None
            },
        }
    }
}

/// Whether an outcome counts toward the timeout rate: a filtered or
/// errored port where no reply was observed.
pub open spec fn is_timeout(p: PortScanResult) -> bool {
    !p.is_open && (p.is_filtered || p.is_error) && p.response_time is None
}

/// The sum of the present samples.
pub open spec fn sum_samples(q: Seq<PortScanResult>) -> int
    decreases q.len(),
{
    if q.len() == 0 {
        0
    } else {
        sum_samples(q.drop_last()) + (match sample_of(q.last()) {
            Some(t) => t,
            None => 0,
        })
    }
}

/// How many outcomes carry a sample.
pub open spec fn count_samples(q: Seq<PortScanResult>) -> int
    decreases q.len(),
{
    if q.len() == 0 {
        0
    } else {
        count_samples(q.drop_last()) + (if sample_of(q.last()) is Some {
            1int
        } else {
            0int
        })
    }
}

/// How many outcomes observed no reply at all.
pub open spec fn count_timeouts(q: Seq<PortScanResult>) -> int
    decreases q.len(),
{
    if q.len() == 0 {
        0
    } else {
        count_timeouts(q.drop_last()) + (if is_timeout(q.last()) {
            1int
        } else {
            0int
        })
    }
}

/// The mean response over sampled outcomes, or the effective timeout when
/// nothing was sampled.
pub open spec fn spec_mean_response(q: Seq<PortScanResult>, effective_timeout: int) -> int {
    if count_samples(q) > 0 {
        sum_samples(q) / count_samples(q)
    } else {
        effective_timeout
    }
}

/// The no-reply share, per-mille.
pub open spec fn spec_timeout_rate(q: Seq<PortScanResult>) -> int
    recommends
        q.len() > 0,
{
    1000 * count_timeouts(q) / (q.len() as int)
}

/// The counters stay within the outcome count, and the sum within the
/// count times the cap.
proof fn lemma_telemetry_bounds(q: Seq<PortScanResult>)
    requires
        forall|i: int|
            0 <= i < q.len() ==> ((#[trigger] q[i]).response_time is Some
                ==> q[i].response_time->0 <= MS_CAP),
    ensures
        0 <= count_samples(q) <= q.len(),
        0 <= count_timeouts(q) <= q.len(),
        0 <= sum_samples(q) <= count_samples(q) * (MS_CAP as int),
    decreases q.len(),
{
    if q.len() > 0 {
        assert(forall|i: int| 0 <= i < q.len() - 1 ==> #[trigger] q.drop_last()[i] == q[i]);
        lemma_telemetry_bounds(q.drop_last());
        let c = count_samples(q.drop_last());
        assert(c * (MS_CAP as int) + MS_CAP as int == (c + 1) * (MS_CAP as int))
            by (nonlinear_arith);
    }
}

/// Fold the per-port outcomes of one host into the derived statistics:
/// the mean response over sampled outcomes (the effective timeout when
/// none was sampled) and the no-reply share in per-mille.
pub fn compute_telemetry(results: &Vec<PortScanResult>, effective_timeout: u64) -> (r: (u64, u32))
    requires
        1 <= results@.len() <= 65536,
        effective_timeout <= MS_CAP,
        forall|i: int|
            0 <= i < results@.len() ==> ((#[trigger] results@[i]).response_time is Some
                ==> results@[i].response_time->0 <= MS_CAP),
    ensures
        r.0 as int == spec_mean_response(results@, effective_timeout as int),
        r.1 as int == spec_timeout_rate(results@),
        r.0 <= MS_CAP,
        r.1 <= 1000,
{
    let n = results.len();
    let mut sum: u64 = 0;
    let mut sampled: u64 = 0;
    let mut timeouts: u64 = 0;
    let mut i: usize = 0;
    proof {
        assert(results@.take(0) =~= Seq::<PortScanResult>::empty());
    }
    while i < n
        invariant
            0 <= i <= n,
            n == results@.len() <= 65536,
            forall|k: int|
                0 <= k < results@.len() ==> ((#[trigger] results@[k]).response_time is Some
                    ==> results@[k].response_time->0 <= MS_CAP),
            sum as int == sum_samples(results@.take(i as int)),
            sampled as int == count_samples(results@.take(i as int)),
            timeouts as int == count_timeouts(results@.take(i as int)),
            sampled <= i && timeouts <= i,
            sum <= sampled * MS_CAP,
        decreases n - i,
    {
        let ghost pre = results@.take(i as int);
        proof {
            assert(results@.take(i + 1).drop_last() =~= pre);
            assert(results@.take(i + 1).last() == results@[i as int]);
            lemma_telemetry_bounds(results@.take(i + 1));
        }
        let p = results.get(i).unwrap();
        // the sample, with probe errors elided from the mean
        if !p.is_error {
            match p.response_time {
                Some(t) => {
                    sum = sum + t;
                    sampled = sampled + 1;
                },
                None => {
                    if p.is_open {
                        sum = sum + 50;
                        sampled = sampled + 1;
                    } else if !p.is_filtered {
                        sum = sum + 25;
                        sampled = sampled + 1;
                    }
                },
            }
        }
        // the timeout share: filtered or errored, with no reply observed
        if !p.is_open && (p.is_filtered || p.is_error) && p.response_time.is_none() {
            timeouts = timeouts + 1;
        }
        i = i + 1;
    }
    proof {
        assert(results@.take(n as int) =~= results@);
        lemma_telemetry_bounds(results@);
    }
    let mean: u64 = if sampled > 0 {
        let m = sum / sampled;
        proof {
            lemma_div_is_ordered(sum as int, sampled as int * MS_CAP as int, sampled as int);
            lemma_div_multiples_vanish(MS_CAP as int, sampled as int);
            assert(sampled as int * MS_CAP as int == MS_CAP as int * sampled as int);
            lemma_div_pos_is_pos(sum as int, sampled as int);
        }
        m
    } else {
        effective_timeout
    };
    let rate: u64 = (1000 * timeouts) / (n as u64);
    proof {
        lemma_div_is_ordered(1000 * timeouts as int, 1000 * n as int, n as int);
        lemma_div_multiples_vanish(1000, n as int);
        assert(1000 * (n as int) == (1000int) * (n as int));
        lemma_div_pos_is_pos(1000 * timeouts as int, n as int);
    }
    (mean, rate as u32)
}

} // verus!
