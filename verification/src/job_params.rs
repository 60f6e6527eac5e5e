//! Parameters of the batch job that runs a simulation, and how cores are
//! spread over the nodes of a system.
use vstd::prelude::*;

verus! {

/// The parameters that the job file template is filled with.
#[derive(Debug, Clone)]
pub struct JobParams {
    pub num_nodes: i64,
    pub num_cores: i64,
    pub num_cores_per_node: i64,
    pub partition: String,
    pub wall_time: String,
    pub job_name: String,
    pub log_file: String,
    pub run_params: String,
    pub executable_name: String,
    pub param_file: String,
    pub run_program: String,
}

/// What a system offers: the largest job, the cores of one node, and the
/// partitions (each with the least number of nodes that it is meant for).
#[derive(Debug, Clone)]
pub struct SystemConfiguration {
    pub max_num_cores: i64,
    pub max_num_cores_per_node: i64,
    pub partitions: Vec<(i64, String)>,
}

/// Integer division that rounds toward zero (Rust's `/` on `i64`).
pub open spec fn div_trunc(x: int, d: int) -> int {
    if x == 0 {
        0
    } else if x > 0 && d > 0 {
        x / d
    } else if x < 0 && d < 0 {
        (x * -1) / (d * -1)
    } else if x < 0 {
        ((x * -1) / d) * -1
    } else {
        (x / (d * -1)) * -1
    }
}

/// The partitions with their names as text.
pub open spec fn partitions_view(p: Seq<(i64, String)>) -> Seq<(i64, Seq<char>)> {
    Seq::new(p.len(), |i: int| (p[i].0, p[i].1@))
}

/// The partition for `num_nodes` nodes: the last partition whose least number
/// of nodes is at most `num_nodes`, or the first partition when there is none.
pub open spec fn partition_for(parts: Seq<(i64, Seq<char>)>, num_nodes: int) -> Seq<char>
    decreases parts.len(),
{
    if parts.len() <= 1 {
        parts[0].1
    } else if parts.last().0 <= num_nodes {
        parts.last().1
    } else {
        partition_for(parts.drop_last(), num_nodes)
    }
}

/// The cores of one node for a job of `num_cores` cores.
pub open spec fn cores_per_node(num_cores: int, conf: SystemConfiguration) -> int {
    if num_cores <= conf.max_num_cores_per_node {
        num_cores
    } else {
        conf.max_num_cores_per_node as int
    }
}

/// The jobs that `get_core_distribution` accepts without panicking.
pub open spec fn distributable(num_cores: int, conf: SystemConfiguration) -> bool {
    &&& num_cores <= conf.max_num_cores
    &&& cores_per_node(num_cores, conf) != 0
    &&& !(num_cores == i64::MIN && cores_per_node(num_cores, conf) == -1)
    &&& conf.partitions@.len() > 0
}

impl SystemConfiguration {
    /// Whether jobs may wait for one another (only on a system larger than a workstation).
    pub fn dependencies_allowed(&self) -> (r: bool)
        ensures
            r == (self.max_num_cores > 6),
    {
        if self.max_num_cores > 6 {
            true
        } else {
            false
        }
    }

    /// The partition for a job of `num_nodes` nodes.
    pub fn get_partition(&self, num_nodes: i64) -> (r: &str)
        requires
            self.partitions@.len() > 0,
        ensures
            r@ == partition_for(partitions_view(self.partitions@), num_nodes as int),
    {
        let ghost pv = partitions_view(self.partitions@);
        let mut partition: &str = self.partitions[0].1.as_str();
        let mut i: usize = 0;
        assert(pv.take(1).len() == 1);
        while i < self.partitions.len()
            invariant
                0 <= i <= self.partitions@.len(),
                self.partitions@.len() > 0,
                pv == partitions_view(self.partitions@),
                partition@ == partition_for(pv.take(if i == 0 { 1 } else { i as int }), num_nodes as int),
            decreases self.partitions@.len() - i,
        {
            let ghost before = if i == 0 { 1 } else { i as int };
            if num_nodes >= self.partitions[i].0 {
                partition = self.partitions[i].1.as_str();
            }
            proof {
                let t = pv.take(i + 1);
                assert(t.last() == pv[i as int]);
                if i > 0 {
                    assert(t.drop_last() =~= pv.take(i as int));
                } else {
                    assert(t =~= pv.take(1));
                }
            }
            i += 1;
        }
        assert(pv.take(i as int) =~= pv);
        partition
    }
}

/// The number of nodes, the cores of each node, and the partition for a job of `num_cores` cores.
pub fn get_core_distribution(num_cores: i64, system_conf: &SystemConfiguration) -> (r: (i64, i64, String))
    requires
        distributable(num_cores as int, *system_conf),
    ensures
        r.1 == cores_per_node(num_cores as int, *system_conf),
        r.0 == div_trunc(num_cores as int, r.1 as int),
        r.2@ == partition_for(partitions_view(system_conf.partitions@), r.0 as int),
{
    let num_cores_per_node = if num_cores <= system_conf.max_num_cores_per_node {
        num_cores
    } else {
        system_conf.max_num_cores_per_node
    };
    let num_nodes = match num_cores.checked_div(num_cores_per_node) {
        Some(n) => n,
        None => {
            assert(false);
            0
        },
    };
    let partition = system_conf.get_partition(num_nodes).to_owned();
    (num_nodes, num_cores_per_node, partition)
}

impl JobParams {
    /// Spreads `num_cores` over the nodes of the system.
    pub fn set_core_nums(&mut self, system_conf: &SystemConfiguration)
        requires
            distributable(old(self).num_cores as int, *system_conf),
        ensures
            final(self).num_cores == old(self).num_cores,
            final(self).num_cores_per_node == cores_per_node(old(self).num_cores as int, *system_conf),
            final(self).num_nodes == div_trunc(
                old(self).num_cores as int,
                final(self).num_cores_per_node as int,
            ),
            final(self).partition@ == partition_for(
                partitions_view(system_conf.partitions@),
                final(self).num_nodes as int,
            ),
            final(self).wall_time == old(self).wall_time,
            final(self).job_name == old(self).job_name,
            final(self).log_file == old(self).log_file,
            final(self).run_params == old(self).run_params,
            final(self).executable_name == old(self).executable_name,
            final(self).param_file == old(self).param_file,
            final(self).run_program == old(self).run_program,
    {
        let num_cores = self.num_cores;
        let (num_nodes, num_cores_per_node, partition) = get_core_distribution(num_cores, system_conf);
        self.num_nodes = num_nodes;
        self.num_cores_per_node = num_cores_per_node;
        self.partition = partition;
    }
}

/// Spreading a job of at least one core over nodes of at least one core
/// each: no node gets more cores than the job or a node has, and the nodes
/// hold all but fewer than one node's cores of the job.
pub proof fn lemma_core_distribution(num_cores: int, conf: SystemConfiguration)
    requires
        num_cores >= 1,
        conf.max_num_cores_per_node >= 1,
    ensures
        ({
            let per = cores_per_node(num_cores, conf);
            let nodes = div_trunc(num_cores, per);
            &&& 1 <= per <= num_cores
            &&& per <= conf.max_num_cores_per_node
            &&& nodes >= 1
            &&& nodes * per <= num_cores < (nodes + 1) * per
        }),
{
    let per = cores_per_node(num_cores, conf);
    let nodes = div_trunc(num_cores, per);
    assert(nodes == num_cores / per);
    vstd::arithmetic::div_mod::lemma_fundamental_div_mod(num_cores, per);
    vstd::arithmetic::div_mod::lemma_mod_bound(num_cores, per);
    assert(num_cores == per * nodes + num_cores % per);
    vstd::arithmetic::mul::lemma_mul_is_commutative(per, nodes);
    assert((nodes + 1) * per == nodes * per + per) by (nonlinear_arith);
    assert(1 <= per <= num_cores);
    vstd::arithmetic::div_mod::lemma_div_non_zero(num_cores, per);
    assert(nodes * per <= num_cores);
}

} // verus!
