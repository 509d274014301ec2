//! The scan scheduler's decision core: effective parameters per host, the
//! probe plan over the cartesian product, the file-descriptor budget
//! check, and the assembly of per-port outcomes into ordered host results
//! and the multi-host aggregate. The task fan-out, semaphores and pacing
//! sleeps live with the async caller; every rule they apply is here.

use vstd::prelude::*;

use crate::adaptive::{AdaptiveLearning, OptimalParams, spec_optimal_params};
use crate::cli::ScanType;
use crate::error::ScanError;
use crate::net::Address;
use crate::results::{
    MultiHostScanResult, PortResult, ScanResult, ports_sorted, ports_wf,
};
use vstd::seq_lib::lemma_multiset_commutative;

verus! {

/// The timeout, pacing and parallelism a host scan runs under.
#[derive(Clone, Copy, Debug, PartialEq, Eq, Structural)]
pub struct EffectiveParams {
    pub timeout_ms: u64,
    pub rate_limit_ms: u64,
    pub parallelism: u32,
}

/// The scanner: operator defaults plus the adaptive controller's state.
/// The controller is consulted and fed between host scans only; probe
/// tasks see an immutable `EffectiveParams` copy.
pub struct Scanner {
    pub rate_limit: u64,
    pub timeout: u64,
    pub parallel_hosts: usize,
    pub adaptive_learning: AdaptiveLearning,
}

impl Scanner {
    /// A scanner with the given operator defaults and a cold controller.
    pub fn new(rate_limit: u64, timeout: u64, parallel_hosts: usize) -> (r: Scanner)
        ensures
            r.rate_limit == rate_limit,
            r.timeout == timeout,
            r.parallel_hosts == parallel_hosts,
            r.adaptive_learning.wf(),
            r.adaptive_learning.loopback is None,
            r.adaptive_learning.link_local is None,
            r.adaptive_learning.private is None,
            r.adaptive_learning.public is None,
            r.adaptive_learning.learning_rate_permille == 100,
            r.adaptive_learning.min_scans_for_optimization == 5,
    {
        Scanner { rate_limit, timeout, parallel_hosts, adaptive_learning: AdaptiveLearning::new() }
    }

    /// The parameters for one host: the controller's values for the
    /// host's network class where it has warmed up (zero means it has
    /// not), the operator defaults otherwise.
    pub fn effective_params(&self, target: Address) -> (r: EffectiveParams)
        requires
            self.parallel_hosts <= u32::MAX,
        ensures
            ({
                let op = spec_optimal_params(self.adaptive_learning, target);
                &&& r.timeout_ms == if op.timeout > 0 {
                    op.timeout as int
                } else {
                    self.timeout as int
                }
                &&& r.rate_limit_ms == if op.rate_limit > 0 {
                    op.rate_limit as int
                } else {
                    self.rate_limit as int
                }
                &&& r.parallelism == if op.parallelism > 0 {
                    op.parallelism as int
                } else {
                    self.parallel_hosts as int
                }
            }),
    {
        let op = self.adaptive_learning.get_optimal_params(target);
        EffectiveParams {
            timeout_ms: if op.timeout > 0 {
                op.timeout
            } else {
                self.timeout
            },
            rate_limit_ms: if op.rate_limit > 0 {
                op.rate_limit
            } else {
                self.rate_limit
            },
            parallelism: if op.parallelism > 0 {
                op.parallelism
            } else {
                self.parallel_hosts as u32
            },
        }
    }
}

/// Refuse a scan whose outstanding probes could exhaust the process's
/// file descriptors: the product of host parallelism and per-host
/// parallelism must stay below the soft limit.
pub fn check_fd_budget(parallel_hosts: usize, per_host_parallelism: usize, fd_soft_limit: u64) -> (r:
    Result<(), ScanError>)
    ensures
        r is Ok <==> (parallel_hosts * per_host_parallelism < fd_soft_limit),
        r is Err ==> r->Err_0 is Resource,
{
    let ph = parallel_hosts as u64;
    let pp = per_host_parallelism as u64;
    proof {
        assert((ph as int) * (pp as int) < 0x1_0000_0000_0000_0000_0000_0000_0000_0000)
            by (nonlinear_arith)
            requires
                ph as int <= 0xffff_ffff_ffff_ffff,
                pp as int <= 0xffff_ffff_ffff_ffff,
        ;
    }
    let product: u128 = (ph as u128) * (pp as u128);
    if product < fd_soft_limit as u128 {
        Ok(())
    } else {
        Err(ScanError::Resource(String::from_str("probe budget exceeds the descriptor limit")))
    }
}

/// The probe plan: every (address, port) pair, hosts outermost, ports in
/// their given order within a host.
pub fn scan_plan(targets: &Vec<Address>, ports: &Vec<u16>) -> (r: Vec<(Address, u16)>)
    requires
        targets@.len() * ports@.len() <= usize::MAX,
    ensures
        r@.len() == targets@.len() * ports@.len(),
        forall|h: int, p: int|
            0 <= h < targets@.len() && 0 <= p < ports@.len() ==> r@[h * ports@.len() + p] == (
            targets@[h],
            ports@[p],
            ),
{
    let mut out: Vec<(Address, u16)> = Vec::new();
    let mut h: usize = 0;
    while h < targets.len()
        invariant
            0 <= h <= targets@.len(),
            targets@.len() * ports@.len() <= usize::MAX,
            out@.len() == h * ports@.len(),
            forall|i: int, p: int|
                0 <= i < h && 0 <= p < ports@.len() ==> out@[i * ports@.len() + p] == (
                targets@[i],
                ports@[p],
                ),
        decreases targets@.len() - h,
    {
        proof {
            assert((h + 1) * ports@.len() <= targets@.len() * ports@.len()) by (nonlinear_arith)
                requires h + 1 <= targets@.len(), ports@.len() >= 0;
            assert(h * ports@.len() + ports@.len() == (h + 1) * ports@.len()) by (nonlinear_arith);
        }
        let mut p: usize = 0;
        while p < ports.len()
            invariant
                0 <= p <= ports@.len(),
                0 <= h < targets@.len(),
                targets@.len() * ports@.len() <= usize::MAX,
                h * ports@.len() + ports@.len() <= targets@.len() * ports@.len(),
                out@.len() == h * ports@.len() + p,
                forall|i: int, j: int|
                    0 <= i < h && 0 <= j < ports@.len() ==> out@[i * ports@.len() + j] == (
                    targets@[i],
                    ports@[j],
                    ),
                forall|j: int|
                    0 <= j < p ==> out@[h * ports@.len() + j] == (targets@[h as int], ports@[j]),
            decreases ports@.len() - p,
        {
            out.push((*targets.get(h).unwrap(), *ports.get(p).unwrap()));
            proof {
                assert forall|i: int, j: int|
                    0 <= i < h && 0 <= j < ports@.len() implies #[trigger] (i * ports@.len() + j)
                    < h * ports@.len() by {
                    assert((i + 1) * ports@.len() <= h * ports@.len()) by (nonlinear_arith)
                        requires i + 1 <= h, ports@.len() >= 0;
                    assert(i * ports@.len() + j < (i + 1) * ports@.len()) by (nonlinear_arith)
                        requires 0 <= j < ports@.len();
                }
            }
            p = p + 1;
        }
        h = h + 1;
    }
    out
}

/// Insert one outcome into a port-ascending list, keeping it ascending;
/// the elements afterwards are the elements before plus the new one.
fn insert_result(v: &mut Vec<PortResult>, x: PortResult)
    requires
        ports_sorted(old(v)@),
        forall|i: int| 0 <= i < old(v)@.len() ==> (#[trigger] old(v)@[i]).port != x.port,
    ensures
        ports_sorted(final(v)@),
        final(v)@.to_multiset() == old(v)@.to_multiset().insert(x),
        final(v)@.len() == old(v)@.len() + 1,
        ports_wf(old(v)@) && x.wf() ==> ports_wf(final(v)@),
{
    let mut i: usize = v.len();
    while i > 0 && v.get(i - 1).unwrap().port > x.port
        invariant
            0 <= i <= v.len(),
            ports_sorted(v@),
            v == old(v),
            forall|j: int| i <= j < v@.len() ==> (#[trigger] v@[j]).port > x.port,
        decreases i,
    {
        i = i - 1;
    }
    proof {
        let ov = old(v)@;
        assert(forall|j: int| 0 <= j < i ==> (#[trigger] ov[j]).port < x.port) by {
            if i > 0 {
                assert(ov[i - 1].port <= x.port);
                assert(ov[i - 1].port != x.port);
                assert(forall|j: int| 0 <= j < i - 1 ==> (#[trigger] ov[j]).port < ov[i - 1].port);
            }
        }
    }
    v.insert(i, x);
    proof {
        let nv = final(v)@;
        let ov = old(v)@;
        assert(nv =~= ov.take(i as int).push(x) + ov.skip(i as int));
        assert(forall|j: int| 0 <= j < i ==> nv[j] == ov[j]);
        assert(nv[i as int] == x);
        assert(forall|j: int| i < j < nv.len() ==> nv[j] == ov[j - 1]);
        assert(ports_sorted(nv));
        // the multiset gains exactly the new element
        lemma_multiset_commutative(ov.take(i as int).push(x), ov.skip(i as int));
        lemma_multiset_commutative(ov.take(i as int), ov.skip(i as int));
        ov.take(i as int).to_multiset_ensures();
        assert(ov.take(i as int) + ov.skip(i as int) =~= ov);
        assert(nv.to_multiset() =~= ov.to_multiset().insert(x));
    }
}

/// Order one host's outcomes by ascending port number. The result is a
/// permutation of the input; ports must be pairwise distinct.
pub fn sort_port_results(outcomes: Vec<PortResult>) -> (r: Vec<PortResult>)
    requires
        forall|i: int, j: int|
            0 <= i < j < outcomes@.len() ==> (#[trigger] outcomes@[i]).port != (
            #[trigger] outcomes@[j]).port,
    ensures
        ports_sorted(r@),
        r@.to_multiset() == outcomes@.to_multiset(),
        r@.len() == outcomes@.len(),
        ports_wf(outcomes@) ==> ports_wf(r@),
{
    let ghost orig = outcomes@;
    let mut rest = outcomes;
    let mut out: Vec<PortResult> = Vec::new();
    proof {
        out@.to_multiset_ensures();
        rest@.to_multiset_ensures();
        assert(out@.to_multiset().add(rest@.to_multiset()) =~= orig.to_multiset());
    }
    while rest.len() > 0
        invariant
            ports_sorted(out@),
            out@.to_multiset().add(rest@.to_multiset()) == orig.to_multiset(),
            out@.len() + rest@.len() == orig.len(),
            // remaining ports are pairwise distinct and disjoint from the placed ones
            forall|i: int, j: int|
                0 <= i < j < rest@.len() ==> (#[trigger] rest@[i]).port != (
                #[trigger] rest@[j]).port,
            forall|i: int, j: int|
                0 <= i < out@.len() && 0 <= j < rest@.len() ==> (#[trigger] out@[i]).port != (
                #[trigger] rest@[j]).port,
            ports_wf(orig) ==> ports_wf(out@) && ports_wf(rest@),
        decreases rest@.len(),
    {
        let ghost rest0 = rest@;
        let x = rest.remove(0);
        proof {
            rest0.to_multiset_ensures();
            assert(rest@ =~= rest0.remove(0));
            assert(rest@.to_multiset() =~= rest0.to_multiset().remove(x));
            assert(rest0.to_multiset().count(x) > 0) by {
                assert(rest0.contains(x)) by {
                    assert(rest0[0] == x);
                }
            }
            assert(forall|j: int| 0 <= j < rest@.len() ==> #[trigger] rest@[j] == rest0[j + 1]);
        }
        let ghost out0 = out@;
        insert_result(&mut out, x);
        proof {
            assert(out@.to_multiset() =~= out0.to_multiset().insert(x));
            assert(out@.to_multiset().add(rest@.to_multiset()) =~= orig.to_multiset());
            // the new element's port stays disjoint from the remaining ones
            assert(forall|i: int|
                0 <= i < out@.len() ==> out0.contains(#[trigger] out@[i]) || out@[i] == x) by {
                out0.to_multiset_ensures();
                out@.to_multiset_ensures();
                assert(forall|i: int|
                    0 <= i < out@.len() ==> out@.to_multiset().count(#[trigger] out@[i]) > 0);
            }
        }
    }
    proof {
        rest@.to_multiset_ensures();
        assert(rest@ =~= Seq::<PortResult>::empty());
        assert(out@.to_multiset() =~= orig.to_multiset());
        orig.to_multiset_ensures();
        out@.to_multiset_ensures();
    }
    out
}

/// Assemble one host's result: outcomes ordered by ascending port.
pub fn build_host_result(
    target: String,
    target_ip: Address,
    scan_type: ScanType,
    start_time_ms: u64,
    end_time_ms: u64,
    outcomes: Vec<PortResult>,
) -> (r: ScanResult)
    requires
        ports_wf(outcomes@),
        forall|i: int, j: int|
            0 <= i < j < outcomes@.len() ==> (#[trigger] outcomes@[i]).port != (
            #[trigger] outcomes@[j]).port,
    ensures
        r.wf(),
        r.target == target,
        r.target_ip == target_ip,
        r.scan_type == scan_type,
        r.start_time_ms == start_time_ms,
        r.end_time_ms == end_time_ms,
        r.ports@.to_multiset() == outcomes@.to_multiset(),
        r.ports@.len() == outcomes@.len(),
{
    let ports = sort_port_results(outcomes);
    ScanResult { target, target_ip, scan_type, start_time_ms, end_time_ms, ports }
}

/// Assemble the multi-host aggregate: one host result per expanded
/// target, each carrying one row per expanded port.
pub fn build_multi_host_result(
    target_spec: String,
    scan_type: ScanType,
    start_time_ms: u64,
    end_time_ms: u64,
    total_ports: usize,
    hosts: Vec<ScanResult>,
) -> (r: MultiHostScanResult)
    requires
        forall|i: int| 0 <= i < hosts@.len() ==> (#[trigger] hosts@[i]).wf(),
        forall|i: int| 0 <= i < hosts@.len() ==> (#[trigger] hosts@[i]).scan_type == scan_type,
        forall|i: int| 0 <= i < hosts@.len() ==> (#[trigger] hosts@[i]).ports@.len() == total_ports,
    ensures
        r.wf(),
        r.target_spec == target_spec,
        r.scan_type == scan_type,
        r.start_time_ms == start_time_ms,
        r.end_time_ms == end_time_ms,
        r.total_hosts == hosts@.len(),
        r.total_ports == total_ports,
        r.hosts == hosts,
{
    let total_hosts = hosts.len();
    MultiHostScanResult {
        target_spec,
        scan_type,
        start_time_ms,
        end_time_ms,
        total_hosts,
        total_ports,
        hosts,
    }
}

/// The count law: a well-formed aggregate built over expanded inputs has
/// exactly one host per deduplicated expanded target and, within each
/// host, one row per deduplicated expanded port.
pub proof fn lemma_result_counts(
    r: MultiHostScanResult,
    expanded_targets: Seq<Address>,
    expanded_ports: Seq<u16>,
)
    requires
        r.wf(),
        r.hosts@.len() == expanded_targets.len(),
        r.total_ports == expanded_ports.len(),
    ensures
        r.total_hosts == expanded_targets.len(),
        forall|i: int|
            0 <= i < r.hosts@.len() ==> (#[trigger] r.hosts@[i]).ports@.len()
                == expanded_ports.len(),
{
}

} // verus!
