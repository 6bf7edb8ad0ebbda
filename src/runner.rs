//! The container runner's bookkeeping: what one execution provisions, the
//! engine parameters each container is created with, and the order of
//! teardown. The engine calls themselves are made by the caller.
use vstd::prelude::*;

use crate::store::has_name;

verus! {

/// The scheduling period, in microseconds, that CPU quotas are relative to.
pub const CPU_PERIOD: i64 = 100000;

/// A declarative description of one container of an execution.
pub struct ContainerConfig {
    /// Unique within one execution.
    pub name: String,
    pub image_name: String,
    pub image_tag: String,
    /// Pull the image before creating the container.
    pub pull: bool,
    pub network: Option<String>,
    pub network_subnet: Option<String>,
    pub command: Option<Vec<String>>,
    /// Pairs of (host port, container port).
    pub ports: Option<Vec<(String, String)>>,
    pub capabilities: Option<Vec<String>>,
    /// CPU limit in thousandths of a CPU.
    pub cpu_millis: Option<u64>,
    /// Memory ceiling in bytes.
    pub memory: Option<i64>,
    /// Paths mounted as tmpfs directories.
    pub tmpfs: Vec<String>,
    /// Pairs of (host path, container path) mounted by bind.
    pub volumes: Vec<(String, String)>,
}

#[derive(Clone, Copy, Debug, PartialEq, Eq, Structural)]
pub enum MountKind {
    Tmpfs,
    Bind,
}

pub struct MountSpec {
    pub target: String,
    pub source: Option<String>,
    pub kind: MountKind,
}

/// A container port published on a host port of every interface.
pub struct PortSpec {
    /// The container port with its protocol, as `<port>/tcp`.
    pub container_port: String,
    pub host_port: String,
}

/// The engine's create-parameters for one container.
pub struct CreateParams {
    /// `<image name>:<image tag>`.
    pub image: String,
    pub cmd: Option<Vec<String>>,
    pub ports: Vec<PortSpec>,
    pub network_mode: String,
    pub cap_add: Option<Vec<String>>,
    pub cpu_period: Option<i64>,
    pub cpu_quota: Option<i64>,
    pub memory: Option<i64>,
    /// The tmpfs mounts, then the bind mounts, each in the given order.
    pub mounts: Vec<MountSpec>,
}

/// The quota for a limit of `millis` thousandths of a CPU: that share of
/// the period, saturated at the largest quota the engine takes.
pub open spec fn cpu_quota_of(millis: u64) -> int {
    let q = CPU_PERIOD * millis / 1000;
    if q > i64::MAX {
        i64::MAX as int
    } else {
        q
    }
}

pub open spec fn image_reference(name: Seq<char>, tag: Seq<char>) -> Seq<char> {
    name + ":"@ + tag
}

pub open spec fn tcp_port(port: Seq<char>) -> Seq<char> {
    port + "/tcp"@
}

/// The network a container joins when its configuration names none.
pub open spec fn default_network() -> Seq<char> {
    "default"@
}

/// `r` is the engine's create-parameters for the container `c`: the image
/// reference, the command, each port published as `<port>/tcp`, the named
/// network or the default one, the capabilities, a CPU quota relative to
/// `CPU_PERIOD`, the memory ceiling, and the tmpfs then bind mounts.
pub open spec fn is_create_params(c: ContainerConfig, r: CreateParams) -> bool {
    &&& r.image@ == image_reference(c.image_name@, c.image_tag@)
    &&& same_strings(r.cmd, c.command)
    &&& match c.ports {
        None => r.ports@.len() == 0,
        Some(ports) => {
            &&& r.ports@.len() == ports@.len()
            &&& forall|i: int|
                0 <= i < ports@.len() ==> {
                    &&& (#[trigger] r.ports@[i]).container_port@ == tcp_port(ports@[i].1@)
                    &&& r.ports@[i].host_port@ == ports@[i].0@
                }
        },
    }
    &&& r.network_mode@ == match c.network {
        Some(n) => n@,
        None => default_network(),
    }
    &&& same_strings(r.cap_add, c.capabilities)
    &&& r.cpu_period == match c.cpu_millis {
        Some(_) => Some(CPU_PERIOD),
        None => None::<i64>,
    }
    &&& r.cpu_quota == match c.cpu_millis {
        Some(m) => Some(cpu_quota_of(m) as i64),
        None => None::<i64>,
    }
    &&& r.memory == c.memory
    &&& r.mounts@.len() == c.tmpfs@.len() + c.volumes@.len()
    &&& forall|i: int|
        0 <= i < c.tmpfs@.len() ==> {
            &&& (#[trigger] r.mounts@[i]).target@ == c.tmpfs@[i]@
            &&& r.mounts@[i].source is None
            &&& r.mounts@[i].kind == MountKind::Tmpfs
        }
    &&& forall|j: int|
        0 <= j < c.volumes@.len() ==> {
            let m = #[trigger] r.mounts@[c.tmpfs@.len() + j];
            &&& m.target@ == c.volumes@[j].1@
            &&& m.source matches Some(s) && s@ == c.volumes@[j].0@
            &&& m.kind == MountKind::Bind
        }
}

/// Both absent, or both present with the same strings in the same order.
pub open spec fn same_strings(a: Option<Vec<String>>, b: Option<Vec<String>>) -> bool {
    match (a, b) {
        (Some(x), Some(y)) => x@ == y@,
        (None, None) => true,
        _ => false,
    }
}

pub(crate) fn clone_strings(v: &Vec<String>) -> (r: Vec<String>)
    ensures
        r@ == v@,
{
    let mut r: Vec<String> = Vec::new();
    let mut i: usize = 0;
    while i < v.len()
        invariant
            i <= v@.len(),
            r@ == v@.subrange(0, i as int),
        decreases v@.len() - i,
    {
        r.push(v[i].clone());
        assert(r@ =~= v@.subrange(0, i + 1));
        i = i + 1;
    }
    assert(v@.subrange(0, v@.len() as int) =~= v@);
    r
}

fn clone_optional_strings(v: &Option<Vec<String>>) -> (r: Option<Vec<String>>)
    ensures
        same_strings(r, *v),
{
    match v {
        Some(x) => Some(clone_strings(x)),
        None => None,
    }
}

fn cpu_quota(millis: u64) -> (r: i64)
    ensures
        r == cpu_quota_of(millis),
{
    if millis <= 92233720368547758 {
        let q: i64 = (millis as i64) * 100;
        assert(CPU_PERIOD * millis / 1000 == millis * 100) by (nonlinear_arith);
        q
    } else {
        assert(CPU_PERIOD * millis / 1000 >= 92233720368547759 * 100) by (nonlinear_arith)
            requires
                millis >= 92233720368547759,
        ;
        i64::MAX
    }
}

impl ContainerConfig {
    /// The create-parameters this configuration stands for.
    pub fn to_create_params(&self) -> (r: CreateParams)
        ensures
            is_create_params(*self, r),
    {
        let image = self.image_name.clone().concat(":").concat(self.image_tag.as_str());
        let mut ports: Vec<PortSpec> = Vec::new();
        match &self.ports {
            None => {},
            Some(list) => {
                let mut i: usize = 0;
                while i < list.len()
                    invariant
                        i <= list@.len(),
                        ports@.len() == i,
                        forall|k: int|
                            0 <= k < i ==> {
                                &&& (#[trigger] ports@[k]).container_port@ == tcp_port(list@[k].1@)
                                &&& ports@[k].host_port@ == list@[k].0@
                            },
                    decreases list@.len() - i,
                {
                    let container_port = list[i].1.clone().concat("/tcp");
                    ports.push(PortSpec { container_port, host_port: list[i].0.clone() });
                    i = i + 1;
                }
            },
        }
        let network_mode = match &self.network {
            Some(n) => n.clone(),
            None => String::from_str("default"),
        };
        let (cpu_period, cpu_quota) = match self.cpu_millis {
            Some(m) => (Some(CPU_PERIOD), Some(cpu_quota(m))),
            None => (None, None),
        };
        let mut mounts: Vec<MountSpec> = Vec::new();
        let mut i: usize = 0;
        while i < self.tmpfs.len()
            invariant
                i <= self.tmpfs@.len(),
                mounts@.len() == i,
                forall|k: int|
                    0 <= k < i ==> {
                        &&& (#[trigger] mounts@[k]).target@ == self.tmpfs@[k]@
                        &&& mounts@[k].source is None
                        &&& mounts@[k].kind == MountKind::Tmpfs
                    },
            decreases self.tmpfs@.len() - i,
        {
            mounts.push(MountSpec { target: self.tmpfs[i].clone(), source: None, kind: MountKind::Tmpfs });
            i = i + 1;
        }
        let mut j: usize = 0;
        while j < self.volumes.len()
            invariant
                j <= self.volumes@.len(),
                mounts@.len() == self.tmpfs@.len() + j,
                forall|k: int|
                    0 <= k < self.tmpfs@.len() ==> {
                        &&& (#[trigger] mounts@[k]).target@ == self.tmpfs@[k]@
                        &&& mounts@[k].source is None
                        &&& mounts@[k].kind == MountKind::Tmpfs
                    },
                forall|k: int|
                    0 <= k < j ==> {
                        let m = #[trigger] mounts@[self.tmpfs@.len() + k];
                        &&& m.target@ == self.volumes@[k].1@
                        &&& m.source matches Some(s) && s@ == self.volumes@[k].0@
                        &&& m.kind == MountKind::Bind
                    },
            decreases self.volumes@.len() - j,
        {
            mounts.push(
                MountSpec {
                    target: self.volumes[j].1.clone(),
                    source: Some(self.volumes[j].0.clone()),
                    kind: MountKind::Bind,
                },
            );
            j = j + 1;
        }
        CreateParams {
            image,
            cmd: clone_optional_strings(&self.command),
            ports,
            network_mode,
            cap_add: clone_optional_strings(&self.capabilities),
            cpu_period,
            cpu_quota,
            memory: self.memory,
            mounts,
        }
    }
}

/// One step of an execution's teardown, in the order they are performed.
pub enum Teardown {
    /// Fire the shutdown signal that every collector observes.
    Signal,
    /// Wait until every collector has stopped and flushed its output.
    JoinCollectors,
    /// Stop a container, with a bounded grace period before it is killed.
    StopContainer { name: String },
    RemoveContainer { name: String },
    RemoveNetwork { name: String },
}

/// A network to create before the container joins it.
pub struct NetworkRequest {
    pub name: String,
    pub subnet: Option<String>,
}

/// What adding one container takes, in order: the network, if one is to
/// be created, the image pull, if asked for, then the container itself.
pub struct AddPlan {
    pub network: Option<NetworkRequest>,
    /// The image reference to pull first.
    pub pull: Option<String>,
    pub params: CreateParams,
}

/// The shape of a teardown: the signal, the join, each container stopped
/// and removed in the order they were added, then each network this runner
/// created.
pub open spec fn teardown_shape(
    plan: Seq<Teardown>,
    containers: Seq<Seq<char>>,
    networks: Seq<Seq<char>>,
) -> bool {
    let c = containers.len();
    &&& plan.len() == 2 + 2 * c + networks.len()
    &&& plan[0] is Signal
    &&& plan[1] is JoinCollectors
    &&& forall|i: int|
        0 <= i < c ==> {
            &&& (#[trigger] plan[2 + 2 * i]) matches Teardown::StopContainer { name } && name@
                == containers[i]
            &&& plan[3 + 2 * i] matches Teardown::RemoveContainer { name } && name@
                == containers[i]
        }
    &&& forall|j: int|
        0 <= j < networks.len() ==> ((#[trigger] plan[2 + 2 * c + j]) matches Teardown::RemoveNetwork {
            name,
        } && name@ == networks[j])
}

/// The networks a runner owns after adding a container that wants
/// `wanted`, when the engine listed `listed`: a network is created, and
/// owned, only when the engine did not have it.
pub open spec fn networks_after(
    networks: Seq<Seq<char>>,
    wanted: Option<Seq<char>>,
    listed: Seq<String>,
) -> Seq<Seq<char>> {
    match wanted {
        Some(n) => if has_name(listed, n) {
            networks
        } else {
            networks.push(n)
        },
        None => networks,
    }
}

pub open spec fn removes_network(plan: Seq<Teardown>, n: Seq<char>) -> bool {
    exists|i: int|
        0 <= i < plan.len() && ((#[trigger] plan[i]) matches Teardown::RemoveNetwork { name } && name@
            == n)
}

pub open spec fn names_of(v: Seq<String>) -> Seq<Seq<char>> {
    v.map_values(|s: String| s@)
}

/// What one execution has provisioned: the containers started, in order,
/// and the networks this runner created.
pub struct Lifecycle {
    pub containers: Vec<String>,
    pub networks: Vec<String>,
}

impl Lifecycle {
    pub fn new() -> (r: Lifecycle)
        ensures
            r.containers@.len() == 0,
            r.networks@.len() == 0,
    {
        Lifecycle { containers: Vec::new(), networks: Vec::new() }
    }

    fn listed_contains(listed: &Vec<String>, name: &String) -> (r: bool)
        ensures
            r == has_name(listed@, name@),
    {
        let mut i: usize = 0;
        while i < listed.len()
            invariant
                i <= listed@.len(),
                forall|j: int| 0 <= j < i ==> #[trigger] listed@[j]@ != name@,
            decreases listed@.len() - i,
        {
            if listed[i] == *name {
                assert(listed@[i as int]@ == name@);
                return true;
            }
            i = i + 1;
        }
        false
    }

    /// Plans the addition of a container, given the networks the engine
    /// lists under the wanted name, and records the container and any network
    /// created for it.
    pub fn add_container(&mut self, config: &ContainerConfig, listed_networks: &Vec<String>) -> (r:
        AddPlan)
        ensures
            names_of(final(self).networks@) == networks_after(
                names_of(old(self).networks@),
                match config.network {
                    Some(n) => Some(n@),
                    None => None,
                },
                listed_networks@,
            ),
            names_of(final(self).containers@) == names_of(old(self).containers@).push(
                config.name@,
            ),
            match r.network {
                Some(req) => config.network matches Some(n) && req.name@ == n@ && !has_name(
                    listed_networks@,
                    n@,
                ) && req.subnet == config.network_subnet,
                None => config.network matches Some(n) ==> has_name(listed_networks@, n@),
            },
            match r.pull {
                Some(image) => config.pull && image@ == image_reference(
                    config.image_name@,
                    config.image_tag@,
                ),
                None => !config.pull,
            },
            is_create_params(*config, r.params),
    {
        let params = config.to_create_params();
        let mut network: Option<NetworkRequest> = None;
        match &config.network {
            Some(n) => {
                if !Self::listed_contains(listed_networks, n) {
                    self.networks.push(n.clone());
                    network = Some(NetworkRequest { name: n.clone(), subnet: config.network_subnet.clone() });
                }
            },
            None => {},
        }
        assert(names_of(self.networks@) =~= networks_after(
            names_of(old(self).networks@),
            match config.network {
                Some(n) => Some(n@),
                None => None,
            },
            listed_networks@,
        ));
        let pull = if config.pull {
            Some(params.image.clone())
        } else {
            None
        };
        self.containers.push(config.name.clone());
        assert(names_of(self.containers@) =~= names_of(old(self).containers@).push(config.name@));
        AddPlan { network, pull, params }
    }

    /// The teardown of this execution.
    pub fn teardown_plan(&self) -> (r: Vec<Teardown>)
        ensures
            teardown_shape(r@, names_of(self.containers@), names_of(self.networks@)),
    {
        let mut r: Vec<Teardown> = Vec::new();
        r.push(Teardown::Signal);
        r.push(Teardown::JoinCollectors);
        let mut i: usize = 0;
        while i < self.containers.len()
            invariant
                i <= self.containers@.len(),
                r@.len() == 2 + 2 * i,
                r@[0] is Signal,
                r@[1] is JoinCollectors,
                forall|k: int|
                    0 <= k < i ==> {
                        &&& (#[trigger] r@[2 + 2 * k]) matches Teardown::StopContainer { name }
                            && name@ == self.containers@[k]@
                        &&& r@[3 + 2 * k] matches Teardown::RemoveContainer { name } && name@
                            == self.containers@[k]@
                    },
            decreases self.containers@.len() - i,
        {
            r.push(Teardown::StopContainer { name: self.containers[i].clone() });
            r.push(Teardown::RemoveContainer { name: self.containers[i].clone() });
            assert(r@[2 + 2 * i] matches Teardown::StopContainer { name } && name@
                == self.containers@[i as int]@);
            i = i + 1;
        }
        let c = self.containers.len();
        let mut j: usize = 0;
        while j < self.networks.len()
            invariant
                j <= self.networks@.len(),
                c == self.containers@.len(),
                r@.len() == 2 + 2 * c + j,
                r@[0] is Signal,
                r@[1] is JoinCollectors,
                forall|k: int|
                    0 <= k < c ==> {
                        &&& (#[trigger] r@[2 + 2 * k]) matches Teardown::StopContainer { name }
                            && name@ == self.containers@[k]@
                        &&& r@[3 + 2 * k] matches Teardown::RemoveContainer { name } && name@
                            == self.containers@[k]@
                    },
                forall|k: int|
                    0 <= k < j ==> ((#[trigger] r@[2 + 2 * c + k]) matches Teardown::RemoveNetwork {
                        name,
                    } && name@ == self.networks@[k]@),
            decreases self.networks@.len() - j,
        {
            r.push(Teardown::RemoveNetwork { name: self.networks[j].clone() });
            j = j + 1;
        }
        r
    }
}

/// The shutdown barrier of a teardown: the signal fires once, first; the
/// join of every collector comes next, before any container is stopped or
/// removed and before any network is removed.
pub proof fn lemma_shutdown_barrier(
    plan: Seq<Teardown>,
    containers: Seq<Seq<char>>,
    networks: Seq<Seq<char>>,
)
    requires
        teardown_shape(plan, containers, networks),
    ensures
        plan[0] is Signal,
        plan[1] is JoinCollectors,
        forall|i: int| 1 <= i < plan.len() ==> !(#[trigger] plan[i] is Signal),
        forall|i: int| 2 <= i < plan.len() ==> !(#[trigger] plan[i] is JoinCollectors),
{
    let c = containers.len();
    assert forall|i: int| 2 <= i < plan.len() implies !(#[trigger] plan[i] is Signal) && !(
    plan[i] is JoinCollectors) by {
        if i < 2 + 2 * c {
            let k = (i - 2) / 2;
            if i % 2 == 0 {
                assert(i == 2 + 2 * k);
                assert(plan[2 + 2 * k] is StopContainer);
            } else {
                assert(i == 3 + 2 * k);
                assert(plan[3 + 2 * k] is RemoveContainer);
            }
        } else {
            let j = i - 2 - 2 * c;
            assert(plan[2 + 2 * c + j] is RemoveNetwork);
        }
    }
}

/// The scope of network cleanup: when a container is added that wants a
/// network the engine already had, and that this runner had not created,
/// the teardown leaves that network alone; when the engine did not have it,
/// the teardown removes it.
pub proof fn lemma_network_cleanup_scope(
    plan: Seq<Teardown>,
    containers: Seq<Seq<char>>,
    owned: Seq<Seq<char>>,
    wanted: Seq<char>,
    listed: Seq<String>,
)
    requires
        teardown_shape(plan, containers, networks_after(owned, Some(wanted), listed)),
    ensures
        has_name(listed, wanted) && !owned.contains(wanted) ==> !removes_network(plan, wanted),
        !has_name(listed, wanted) ==> removes_network(plan, wanted),
{
    let networks = networks_after(owned, Some(wanted), listed);
    let c = containers.len();
    if has_name(listed, wanted) && !owned.contains(wanted) {
        assert forall|i: int| 0 <= i < plan.len() implies !((#[trigger] plan[i]) matches Teardown::RemoveNetwork { name } && name@ == wanted) by {
            if 2 <= i < 2 + 2 * c {
                let k = (i - 2) / 2;
                if i % 2 == 0 {
                    assert(i == 2 + 2 * k);
                    assert(plan[2 + 2 * k] is StopContainer);
                } else {
                    assert(i == 3 + 2 * k);
                    assert(plan[3 + 2 * k] is RemoveContainer);
                }
            } else if i >= 2 + 2 * c {
                let j = i - 2 - 2 * c;
                assert(plan[2 + 2 * c + j] matches Teardown::RemoveNetwork { name } && name@ == owned[j]);
                assert(owned.contains(owned[j]));
            }
        }
    }
    if !has_name(listed, wanted) {
        let j = owned.len() as int;
        assert(networks[j] == wanted);
        assert(plan[2 + 2 * c + j] matches Teardown::RemoveNetwork { name } && name@ == wanted);
    }
}

} // verus!
