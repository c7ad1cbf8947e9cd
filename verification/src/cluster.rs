//! The topology of a test cluster: its nodes, the identifiers and ports
//! they get, and the external invocations that each lifecycle operation
//! issues, in order.

use vstd::prelude::*;
use vstd::string::*;
use crate::address::{
    first_unused, prefix_text, used_prefixes, pick_unused_prefix, prefix_string, prefixes_in_use,
};
use crate::cluster_config::{ConfigTree, ScyllaConfig};
use crate::plan::{Invocation, Plan, Step};
use crate::runner::{distinct_names, pairs_view, ExitStatus, RunError, RunOptions};
use crate::text::{decimal, views, push_decimal};

verus! {

/// Whether a node is still part of its cluster.
#[derive(Debug, Clone, Copy, PartialEq, Eq, Structural)]
pub enum NodeStatus {
    ACTIVE,
    DELETED,
}

/// What starting a node waits for.
#[derive(Debug, Clone, Copy, PartialEq, Eq, Structural)]
pub enum NodeStartOption {
    NOWAIT,
    WaitOtherNotice,
    WaitForBinaryProto,
}

/// What stands for "no identifier is free": node identifiers run from 1 to
/// 255.
pub const NO_NODE_ID: i32 = 256;

/// One member of a cluster.
#[derive(Debug)]
pub struct Node {
    pub name: String,
    pub datacenter_id: i32,
    pub node_id: i32,
    pub status: NodeStatus,
    pub scylla: bool,
    pub smp: i32,
    pub memory: i64,
    pub config: ScyllaConfig,
    pub install_directory: String,
}

/// The name of the node `node_id` of datacenter `datacenter_id`.
pub open spec fn node_name(datacenter_id: i32, node_id: i32) -> Seq<char> {
    "node_"@ + decimal(datacenter_id as int) + "_"@ + decimal(node_id as int)
}

/// The memory of a node in megabytes: what was asked for, or 512 for each
/// core where nothing was.
pub open spec fn node_memory(smp: i32, memory: i32) -> int {
    if memory != 0 {
        memory as int
    } else {
        512 * smp
    }
}

/// The command-line switch of a start option.
pub open spec fn start_flag(opt: NodeStartOption) -> Seq<char> {
    match opt {
        NodeStartOption::NOWAIT => "--no-wait"@,
        NodeStartOption::WaitOtherNotice => "--wait-other-notice"@,
        NodeStartOption::WaitForBinaryProto => "--wait-for-binary-proto"@,
    }
}

/// The switches of the given start options, in the order given.
pub open spec fn start_flags(opts: Option<&[NodeStartOption]>) -> Seq<Seq<char>> {
    match opts {
        Some(opts) => Seq::new(opts@.len(), |i: int| start_flag(opts@[i])),
        None => Seq::empty(),
    }
}

fn push_arg(args: &mut Vec<String>, arg: &str)
    ensures
        views(final(args)@) == views(old(args)@).push(arg@),
{
    args.push(arg.to_owned());
    assert(views(args@) =~= views(old(args)@).push(arg@));
}

fn push_number(args: &mut Vec<String>, prefix: &str, n: i64)
    ensures
        views(final(args)@) == views(old(args)@).push(prefix@ + decimal(n as int)),
{
    let mut text = prefix.to_owned();
    push_decimal(&mut text, n);
    args.push(text);
    assert(views(args@) =~= views(old(args)@).push(prefix@ + decimal(n as int)));
}

fn tool() -> (r: String)
    ensures
        r@ == "ccm"@,
{
    "ccm".to_owned()
}

impl Node {
    /// A new, active node. Its name follows from the two identifiers; its
    /// memory defaults to 512 megabytes for each core.
    pub fn new(
        datacenter_id: i32,
        node_id: i32,
        scylla: bool,
        smp: i32,
        memory: i32,
        config: ScyllaConfig,
        install_directory: String,
    ) -> (r: Node)
        ensures
            r.name@ == node_name(datacenter_id, node_id),
            r.datacenter_id == datacenter_id,
            r.node_id == node_id,
            r.status == NodeStatus::ACTIVE,
            r.scylla == scylla,
            r.smp == smp,
            r.memory == node_memory(smp, memory),
            r.config == config,
            r.install_directory == install_directory,
    {
        let mut name = "node_".to_owned();
        push_decimal(&mut name, datacenter_id as i64);
        name.append("_");
        push_decimal(&mut name, node_id as i64);
        let megabytes: i64 = if memory != 0 {
            memory as i64
        } else {
            512 * (smp as i64)
        };
        Node {
            name,
            datacenter_id,
            node_id,
            status: NodeStatus::ACTIVE,
            scylla,
            smp,
            memory: megabytes,
            config,
            install_directory,
        }
    }

    /// The node's management port: 7000, a hundred for each datacenter, and
    /// the node's identifier.
    pub open spec fn spec_jmx_port(&self) -> int {
        7000 + self.datacenter_id * 100 + self.node_id
    }

    /// The node's remote debugging port: 2000, a hundred for each
    /// datacenter, and the node's identifier.
    pub open spec fn spec_debug_port(&self) -> int {
        2000 + self.datacenter_id * 100 + self.node_id
    }

    /// The node's management port. Two nodes of different datacenters can
    /// get the same port once node identifiers pass 99; nothing here guards
    /// against that.
    pub fn jmx_port(&self) -> (r: i64)
        ensures
            r == self.spec_jmx_port(),
    {
        7000 + (self.datacenter_id as i64) * 100 + (self.node_id as i64)
    }

    /// The node's remote debugging port. It can collide as the management
    /// port can.
    pub fn debug_port(&self) -> (r: i64)
        ensures
            r == self.spec_debug_port(),
    {
        2000 + (self.datacenter_id as i64) * 100 + (self.node_id as i64)
    }

    /// The environment overrides that carry the node's resource hints.
    pub open spec fn spec_ccm_env(&self) -> Seq<(Seq<char>, Seq<char>)> {
        seq![
            (
                "SCYLLA_EXT_OPTS"@,
                "--smp="@ + decimal(self.smp as int) + " --memory="@ + decimal(self.memory as int)
                    + "M"@,
            ),
        ]
    }

    /// The environment overrides that carry the node's resource hints.
    pub fn get_ccm_env(&self) -> (r: Vec<(String, String)>)
        ensures
            pairs_view(r@) == self.spec_ccm_env(),
            distinct_names(r@),
    {
        let mut value = "--smp=".to_owned();
        push_decimal(&mut value, self.smp as i64);
        value.append(" --memory=");
        push_decimal(&mut value, self.memory);
        value.append("M");
        let mut env: Vec<(String, String)> = Vec::new();
        env.push(("SCYLLA_EXT_OPTS".to_owned(), value));
        assert(pairs_view(env@) =~= self.spec_ccm_env());
        env
    }

    fn options(&self) -> (r: Option<RunOptions>)
        ensures
            r is Some,
            pairs_view(r->0.env@) == self.spec_ccm_env(),
            r->0.allow_failure is None,
            r->0.well_formed(),
    {
        Some(RunOptions { env: self.get_ccm_env(), allow_failure: None })
    }

    /// The arguments that add the node to its cluster.
    pub open spec fn spec_init_args(&self) -> Seq<Seq<char>> {
        let args = seq![
            "add"@,
            self.name@,
            "--data-center"@,
            "dc"@ + decimal(self.datacenter_id as int),
            "--jmx-port"@,
            decimal(self.spec_jmx_port()),
            "--remote-debug-port"@,
            decimal(self.spec_debug_port()),
            "--config-dir"@,
            self.install_directory@,
        ];
        if self.scylla {
            args.push("--scylla"@)
        } else {
            args
        }
    }

    /// The arguments that start the node.
    pub open spec fn spec_start_args(&self, opts: Option<&[NodeStartOption]>) -> Seq<Seq<char>> {
        seq!["start"@, self.name@, "--config-dir"@, self.install_directory@] + start_flags(opts)
    }

    /// The arguments that remove the node.
    pub open spec fn spec_delete_args(&self) -> Seq<Seq<char>> {
        seq!["remove"@, self.name@]
    }

    /// The invocation that adds the node to its cluster: its name,
    /// datacenter, ports and the install directory, with the resource hints
    /// in the environment.
    pub fn init(&self) -> (r: Invocation)
        ensures
            r.command@ == "ccm"@,
            views(r.args@) == self.spec_init_args(),
            r.options is Some,
            pairs_view(r.options->0.env@) == self.spec_ccm_env(),
            r.options->0.allow_failure is None,
            r.options->0.well_formed(),
    {
        proof {
            reveal_strlit("");
            assert(""@ + decimal(self.spec_jmx_port()) =~= decimal(self.spec_jmx_port()));
            assert(""@ + decimal(self.spec_debug_port()) =~= decimal(self.spec_debug_port()));
        }
        let mut args: Vec<String> = Vec::new();
        assert(views(args@) =~= Seq::<Seq<char>>::empty());
        push_arg(&mut args, "add");
        push_arg(&mut args, self.name.as_str());
        push_arg(&mut args, "--data-center");
        push_number(&mut args, "dc", self.datacenter_id as i64);
        push_arg(&mut args, "--jmx-port");
        push_number(&mut args, "", self.jmx_port());
        push_arg(&mut args, "--remote-debug-port");
        push_number(&mut args, "", self.debug_port());
        push_arg(&mut args, "--config-dir");
        push_arg(&mut args, self.install_directory.as_str());
        if self.scylla {
            push_arg(&mut args, "--scylla");
        }
        assert(views(args@) =~= self.spec_init_args());
        Invocation { command: tool(), args, options: self.options() }
    }

    /// The invocation that starts the node. The switches come in the order
    /// of the options given.
    pub fn start(&self, opts: Option<&[NodeStartOption]>) -> (r: Invocation)
        ensures
            r.command@ == "ccm"@,
            views(r.args@) == self.spec_start_args(opts),
            r.options is Some,
            pairs_view(r.options->0.env@) == self.spec_ccm_env(),
            r.options->0.allow_failure is None,
            r.options->0.well_formed(),
    {
        let mut args: Vec<String> = Vec::new();
        assert(views(args@) =~= Seq::<Seq<char>>::empty());
        push_arg(&mut args, "start");
        push_arg(&mut args, self.name.as_str());
        push_arg(&mut args, "--config-dir");
        push_arg(&mut args, self.install_directory.as_str());
        let ghost base = views(args@);
        match opts {
            Some(list) => {
                let mut i: usize = 0;
                while i < list.len()
                    invariant
                        i <= list@.len(),
                        opts == Some(list),
                        views(args@) == base + start_flags(opts).take(i as int),
                    decreases list.len() - i,
                {
                    let flag: &str = match list[i] {
                        NodeStartOption::NOWAIT => "--no-wait",
                        NodeStartOption::WaitOtherNotice => "--wait-other-notice",
                        NodeStartOption::WaitForBinaryProto => "--wait-for-binary-proto",
                    };
                    push_arg(&mut args, flag);
                    assert(views(args@) =~= base + start_flags(opts).take(i + 1));
                    i = i + 1;
                }
                assert(start_flags(opts).take(i as int) =~= start_flags(opts));
            },
            None => {
                assert(views(args@) =~= base + start_flags(opts));
            },
        }
        assert(base =~= seq!["start"@, self.name@, "--config-dir"@, self.install_directory@]);
        Invocation { command: tool(), args, options: self.options() }
    }

    /// The invocation that removes the node.
    pub fn delete(&self) -> (r: Invocation)
        ensures
            r.command@ == "ccm"@,
            views(r.args@) == self.spec_delete_args(),
            r.options is None,
    {
        let mut args: Vec<String> = Vec::new();
        assert(views(args@) =~= Seq::<Seq<char>>::empty());
        push_arg(&mut args, "remove");
        push_arg(&mut args, self.name.as_str());
        assert(views(args@) =~= self.spec_delete_args());
        Invocation { command: tool(), args, options: None }
    }

    /// Takes the result of the removal: on success the node is deleted,
    /// whatever the tool left behind; on failure it stays as it was.
    pub fn finish_delete(&mut self, result: Result<ExitStatus, RunError>) -> (r: Result<
        (),
        RunError,
    >)
        ensures
            r == match result {
                Ok(_) => Ok::<(), RunError>(()),
                Err(e) => Err(e),
            },
            final(self).status == if result is Ok {
                NodeStatus::DELETED
            } else {
                old(self).status
            },
            final(self).name == old(self).name,
            final(self).datacenter_id == old(self).datacenter_id,
            final(self).node_id == old(self).node_id,
            final(self).scylla == old(self).scylla,
            final(self).smp == old(self).smp,
            final(self).memory == old(self).memory,
            final(self).config == old(self).config,
            final(self).install_directory == old(self).install_directory,
    {
        match result {
            Ok(_) => {
                self.mark_deleted();
                Ok(())
            },
            Err(e) => Err(e),
        }
    }

    /// Marks the node as deleted. A deleted node never becomes active
    /// again.
    pub fn mark_deleted(&mut self)
        ensures
            final(self).status == NodeStatus::DELETED,
            final(self).name == old(self).name,
            final(self).datacenter_id == old(self).datacenter_id,
            final(self).node_id == old(self).node_id,
            final(self).scylla == old(self).scylla,
            final(self).smp == old(self).smp,
            final(self).memory == old(self).memory,
            final(self).config == old(self).config,
            final(self).install_directory == old(self).install_directory,
    {
        self.status = NodeStatus::DELETED;
    }
}

/// Why a cluster could not be set up.
#[derive(Debug, Clone, PartialEq, Eq)]
pub enum ClusterError {
    /// The install path exists and is not a directory; holds the path.
    InstallPathConflict(String),
    /// Every candidate address prefix is in use.
    NoAvailablePrefix,
}

/// What the caller found at the install path.
#[derive(Debug, Clone, Copy, PartialEq, Eq, Structural)]
pub enum PathKind {
    Directory,
    NotDirectory,
    Missing,
}

/// What to do about the install directory.
#[derive(Debug, Clone, Copy, PartialEq, Eq, Structural)]
pub enum InstallAction {
    /// The directory is there: use it.
    UseExisting,
    /// Nothing is there: create the directory and its parents.
    CreateDirectory,
}

/// A named collection of nodes that share an install directory, a version
/// and an address prefix.
#[derive(Debug)]
pub struct Cluster {
    pub name: String,
    pub scylla: bool,
    pub version: String,
    pub ip_prefix: String,
    pub install_directory: String,
    pub nodes: Vec<Node>,
    pub destroyed: bool,
    pub default_node_smp: i32,
    pub default_node_memory: i32,
    pub default_node_config: Option<ScyllaConfig>,
}

/// Whether a node of `nodes` is the node `node_id` of `datacenter_id`.
pub open spec fn id_in_use(nodes: Seq<Node>, datacenter_id: i32, node_id: int) -> bool {
    exists|i: int|
        0 <= i < nodes.len() && (#[trigger] nodes[i]).datacenter_id == datacenter_id
            && nodes[i].node_id == node_id
}

/// The lowest identifier from `from` to 255 that no node of the datacenter
/// has, or 256.
pub open spec fn lowest_free_from(nodes: Seq<Node>, datacenter_id: i32, from: int) -> int
    decreases 256 - from,
{
    if from > 255 {
        256
    } else if !id_in_use(nodes, datacenter_id, from) {
        from
    } else {
        lowest_free_from(nodes, datacenter_id, from + 1)
    }
}

/// The identifier that the next node of the datacenter gets: the lowest of
/// 1 to 255 that no node of it has, or 256 where all are taken.
pub open spec fn free_node_id(nodes: Seq<Node>, datacenter_id: i32) -> int {
    lowest_free_from(nodes, datacenter_id, 1)
}

/// The address prefix of a cluster: the one given, with a dot at its end.
pub open spec fn normal_prefix(prefix: Seq<char>) -> Seq<char> {
    if prefix.len() > 0 && prefix.last() == '.' {
        prefix
    } else {
        prefix.push('.')
    }
}

/// The datacenters of the nodes that a new cluster allocates, in order:
/// for each entry of `counts` in turn, as many nodes as it asks for (none
/// for a negative count), in the datacenter of its position, counted from
/// one.
pub open spec fn planned_datacenters(counts: Seq<i32>) -> Seq<i32>
    decreases counts.len(),
{
    if counts.len() == 0 {
        Seq::empty()
    } else {
        let n: nat = if counts.last() > 0 {
            counts.last() as nat
        } else {
            0
        };
        planned_datacenters(counts.drop_last()) + Seq::new(n, |k: int| counts.len() as i32)
    }
}

/// The datacenters of the given nodes, in order.
pub open spec fn datacenters_of(nodes: Seq<Node>) -> Seq<i32> {
    Seq::new(nodes.len(), |i: int| nodes[i].datacenter_id)
}

impl Cluster {
    /// Whether everything but the nodes and the destroyed flag is the same
    /// in both clusters.
    pub open spec fn same_settings(&self, other: &Cluster) -> bool {
        &&& self.name == other.name
        &&& self.scylla == other.scylla
        &&& self.version == other.version
        &&& self.ip_prefix == other.ip_prefix
        &&& self.install_directory == other.install_directory
        &&& self.default_node_smp == other.default_node_smp
        &&& self.default_node_memory == other.default_node_memory
        &&& self.default_node_config == other.default_node_config
    }

    /// The configuration that a new node gets: the cluster's default, or
    /// the null overlay where none was set.
    pub open spec fn spec_node_config(&self) -> ConfigTree {
        match self.default_node_config {
            Some(config) => config@,
            None => ConfigTree::Null,
        }
    }

    /// Whether `node` is what the cluster allocates in `datacenter_id`
    /// while it holds the nodes `earlier`.
    pub open spec fn allocates(&self, earlier: Seq<Node>, datacenter_id: i32, node: Node) -> bool {
        &&& node.datacenter_id == datacenter_id
        &&& node.node_id == free_node_id(earlier, datacenter_id)
        &&& node.name@ == node_name(datacenter_id, node.node_id)
        &&& node.status == NodeStatus::ACTIVE
        &&& node.scylla == self.scylla
        &&& node.smp == self.default_node_smp
        &&& node.memory == node_memory(self.default_node_smp, self.default_node_memory)
        &&& node.config@ == self.spec_node_config()
        &&& node.install_directory@ == self.install_directory@
    }

    /// Sets the memory, in megabytes, of the nodes added from now on.
    pub fn set_default_node_memory(&mut self, memory: i32)
        ensures
            final(self).default_node_memory == memory,
            final(self).name == old(self).name,
            final(self).scylla == old(self).scylla,
            final(self).version == old(self).version,
            final(self).ip_prefix == old(self).ip_prefix,
            final(self).install_directory == old(self).install_directory,
            final(self).default_node_smp == old(self).default_node_smp,
            final(self).default_node_config == old(self).default_node_config,
            final(self).nodes@ == old(self).nodes@,
            final(self).destroyed == old(self).destroyed,
    {
        self.default_node_memory = memory;
    }

    /// Sets the number of cores of the nodes added from now on.
    pub fn set_default_node_smp(&mut self, smp: i32)
        ensures
            final(self).default_node_smp == smp,
            final(self).name == old(self).name,
            final(self).scylla == old(self).scylla,
            final(self).version == old(self).version,
            final(self).ip_prefix == old(self).ip_prefix,
            final(self).install_directory == old(self).install_directory,
            final(self).default_node_memory == old(self).default_node_memory,
            final(self).default_node_config == old(self).default_node_config,
            final(self).nodes@ == old(self).nodes@,
            final(self).destroyed == old(self).destroyed,
    {
        self.default_node_smp = smp;
    }

    /// Sets the configuration of the nodes added from now on.
    pub fn set_default_node_config(&mut self, config: ScyllaConfig)
        ensures
            final(self).default_node_config == Some(config),
            final(self).name == old(self).name,
            final(self).scylla == old(self).scylla,
            final(self).version == old(self).version,
            final(self).ip_prefix == old(self).ip_prefix,
            final(self).install_directory == old(self).install_directory,
            final(self).default_node_smp == old(self).default_node_smp,
            final(self).default_node_memory == old(self).default_node_memory,
            final(self).nodes@ == old(self).nodes@,
            final(self).destroyed == old(self).destroyed,
    {
        self.default_node_config = Some(config);
    }

    /// The lowest node identifier from 1 to 255 that no node of the
    /// datacenter has, deleted nodes included, or 256 where the datacenter
    /// is full. The caller checks for 256.
    pub fn get_free_node_id(&self, datacenter_id: i32) -> (r: i32)
        ensures
            r == free_node_id(self.nodes@, datacenter_id),
            1 <= r <= 256,
            r <= 255 ==> !id_in_use(self.nodes@, datacenter_id, r as int),
            forall|id: int| 1 <= id < r ==> id_in_use(self.nodes@, datacenter_id, id),
    {
        let mut node_id: i32 = 1;
        while node_id <= 255
            invariant
                1 <= node_id <= 256,
                forall|id: int| 1 <= id < node_id ==> id_in_use(self.nodes@, datacenter_id, id),
                free_node_id(self.nodes@, datacenter_id) == lowest_free_from(
                    self.nodes@,
                    datacenter_id,
                    node_id as int,
                ),
            decreases 256 - node_id,
        {
            let mut taken = false;
            let mut i: usize = 0;
            while i < self.nodes.len() && !taken
                invariant
                    i <= self.nodes@.len(),
                    taken ==> id_in_use(self.nodes@, datacenter_id, node_id as int),
                    !taken ==> forall|j: int|
                        0 <= j < i ==> !((#[trigger] self.nodes@[j]).datacenter_id == datacenter_id
                            && self.nodes@[j].node_id == node_id),
                decreases self.nodes@.len() - i + if taken { 0int } else { 1int },
            {
                if self.nodes[i].datacenter_id == datacenter_id && self.nodes[i].node_id
                    == node_id {
                    taken = true;
                } else {
                    i = i + 1;
                }
            }
            if !taken {
                return node_id;
            }
            node_id = node_id + 1;
        }
        NO_NODE_ID
    }

    /// Allocates a node in the given datacenter, or in datacenter 1 where
    /// none is given, with the lowest free identifier and the cluster's
    /// defaults, and appends it to the cluster. Returns the new node.
    pub fn add_node(&mut self, datacenter_id: Option<i32>) -> (r: &Node)
        ensures
            final(self).nodes@.len() == old(self).nodes@.len() + 1,
            final(self).nodes@.drop_last() == old(self).nodes@,
            *r == final(self).nodes@.last(),
            old(self).allocates(
                old(self).nodes@,
                match datacenter_id {
                    Some(dc) => dc,
                    None => 1,
                },
                *r,
            ),
            final(self).same_settings(old(self)),
            final(self).destroyed == old(self).destroyed,
    {
        let dc: i32 = match datacenter_id {
            Some(dc) => dc,
            None => 1,
        };
        let config = match &self.default_node_config {
            Some(config) => config.duplicate(),
            None => ScyllaConfig::Null,
        };
        let node = Node::new(
            dc,
            self.get_free_node_id(dc),
            self.scylla,
            self.default_node_smp,
            self.default_node_memory,
            config,
            self.install_directory.clone(),
        );
        self.nodes.push(node);
        assert(self.nodes@.drop_last() =~= old(self).nodes@);
        let last: usize = self.nodes.len() - 1;
        &self.nodes[last]
    }
}

/// Whether `invocation` calls the tool with exactly these arguments and,
/// where `env` is given, exactly these environment overrides and no word on
/// failure; where it is not, without options.
pub open spec fn issues(
    invocation: Invocation,
    args: Seq<Seq<char>>,
    env: Option<Seq<(Seq<char>, Seq<char>)>>,
) -> bool {
    &&& invocation.command@ == "ccm"@
    &&& views(invocation.args@) == args
    &&& match env {
        Some(env) => {
            &&& invocation.options is Some
            &&& pairs_view(invocation.options->0.env@) == env
            &&& invocation.options->0.allow_failure is None
            &&& invocation.options->0.well_formed()
        },
        None => invocation.options is None,
    }
}

impl Cluster {
    /// The memory, in megabytes, of a node of a new cluster.
    pub const DEFAULT_MEMORY: i32 = 512;

    /// The number of cores of a node of a new cluster.
    pub const DEFAULT_SMP: i32 = 1;

    /// The arguments that create the cluster.
    pub open spec fn spec_create_args(&self) -> Seq<Seq<char>> {
        let args = seq![
            "create"@,
            self.name@,
            "-v"@,
            self.version@,
            "-i"@,
            self.ip_prefix@,
            "--config-dir"@,
            self.install_directory@,
        ];
        if self.scylla {
            args.push("--scylla"@)
        } else {
            args
        }
    }

    /// The arguments that stop the cluster.
    pub open spec fn spec_stop_args(&self) -> Seq<Seq<char>> {
        seq!["stop"@, self.name@, "--config-dir"@, self.install_directory@]
    }

    /// The arguments that remove the cluster.
    pub open spec fn spec_remove_args(&self) -> Seq<Seq<char>> {
        seq!["remove"@, self.name@, "--config-dir"@, self.install_directory@]
    }

    /// Decides what to do about the install directory from what was found
    /// at its path: a directory is used, a missing one is created, and
    /// anything else is a conflict.
    pub fn install_action(install_directory: &str, found: PathKind) -> (r: Result<
        InstallAction,
        ClusterError,
    >)
        ensures
            found == PathKind::Directory ==> r == Ok::<InstallAction, ClusterError>(
                InstallAction::UseExisting,
            ),
            found == PathKind::Missing ==> r == Ok::<InstallAction, ClusterError>(
                InstallAction::CreateDirectory,
            ),
            found == PathKind::NotDirectory ==> r is Err && r->Err_0 is InstallPathConflict
                && r->Err_0->InstallPathConflict_0@ == install_directory@,
    {
        match found {
            PathKind::Directory => Ok(InstallAction::UseExisting),
            PathKind::Missing => Ok(InstallAction::CreateDirectory),
            PathKind::NotDirectory => Err(
                ClusterError::InstallPathConflict(install_directory.to_owned()),
            ),
        }
    }

    /// Proposes an address prefix for a new cluster from the table of
    /// locally bound endpoints: `127.a.b.` for the first pair of octets,
    /// each from 1 to 255, in ascending order of `a` and then of `b`, that
    /// no line of the table names. Fails where all of them are in use.
    pub fn sniff_ip_prefix(tcp_table: &str) -> (r: Result<String, ClusterError>)
        ensures
            match r {
                Ok(prefix) => exists|a: u8, b: u8|
                    first_unused(used_prefixes(tcp_table@), 1, Some((a, b))) && prefix@
                        == #[trigger] prefix_text(a as int, b as int),
                Err(e) => e == ClusterError::NoAvailablePrefix && first_unused(
                    used_prefixes(tcp_table@),
                    1,
                    None,
                ),
            },
    {
        let used = prefixes_in_use(tcp_table);
        match pick_unused_prefix(&used) {
            Some((a, b)) => Ok(prefix_string(a, b)),
            None => Err(ClusterError::NoAvailablePrefix),
        }
    }

    /// A cluster with its nodes allocated: for each entry of
    /// `number_of_nodes` in turn, as many nodes as it asks for, in the
    /// datacenter of its position counted from one, each with the lowest
    /// identifier free at its turn and the defaults of a new cluster. The
    /// address prefix gets a dot at its end where it has none.
    pub fn new(
        name: String,
        version: String,
        ip_prefix: &str,
        number_of_nodes: &Vec<i32>,
        install_directory: String,
        scylla: bool,
    ) -> (r: Cluster)
        requires
            number_of_nodes@.len() < i32::MAX,
        ensures
            r.name == name,
            r.version == version,
            r.scylla == scylla,
            r.install_directory == install_directory,
            r.ip_prefix@ == normal_prefix(ip_prefix@),
            !r.destroyed,
            r.default_node_smp == Cluster::DEFAULT_SMP,
            r.default_node_memory == Cluster::DEFAULT_MEMORY,
            r.default_node_config is None,
            datacenters_of(r.nodes@) == planned_datacenters(number_of_nodes@),
            forall|j: int|
                0 <= j < r.nodes@.len() ==> r.allocates(
                    r.nodes@.take(j),
                    r.nodes@[j].datacenter_id,
                    #[trigger] r.nodes@[j],
                ),
    {
        let mut prefix = ip_prefix.to_owned();
        let length: usize = ip_prefix.unicode_len();
        if length == 0 || ip_prefix.get_char(length - 1) != '.' {
            proof {
                reveal_strlit(".");
            }
            prefix.append(".");
            assert(prefix@ =~= ip_prefix@.push('.'));
        }
        let mut cluster = Cluster {
            name,
            scylla,
            version,
            ip_prefix: prefix,
            install_directory,
            destroyed: false,
            nodes: Vec::new(),
            default_node_memory: Cluster::DEFAULT_MEMORY,
            default_node_smp: Cluster::DEFAULT_SMP,
            default_node_config: None,
        };
        let ghost fresh = cluster;
        assert(datacenters_of(cluster.nodes@) =~= planned_datacenters(number_of_nodes@.take(0)));
        let mut d: usize = 0;
        while d < number_of_nodes.len()
            invariant
                d <= number_of_nodes@.len(),
                number_of_nodes@.len() < i32::MAX,
                cluster.same_settings(&fresh),
                !cluster.destroyed,
                datacenters_of(cluster.nodes@) == planned_datacenters(
                    number_of_nodes@.take(d as int),
                ),
                forall|j: int|
                    0 <= j < cluster.nodes@.len() ==> fresh.allocates(
                        cluster.nodes@.take(j),
                        cluster.nodes@[j].datacenter_id,
                        #[trigger] cluster.nodes@[j],
                    ),
            decreases number_of_nodes@.len() - d,
        {
            let count: i32 = number_of_nodes[d];
            let dc: i32 = (d + 1) as i32;
            let ghost before = datacenters_of(cluster.nodes@);
            let mut k: i32 = 0;
            assert(datacenters_of(cluster.nodes@) =~= before + Seq::new(0, |i: int| dc));
            while k < count
                invariant
                    0 <= k,
                    k <= count || k == 0,
                    dc == d + 1,
                    cluster.same_settings(&fresh),
                    !cluster.destroyed,
                    datacenters_of(cluster.nodes@) == before + Seq::new(k as nat, |i: int| dc),
                    forall|j: int|
                        0 <= j < cluster.nodes@.len() ==> fresh.allocates(
                            cluster.nodes@.take(j),
                            cluster.nodes@[j].datacenter_id,
                            #[trigger] cluster.nodes@[j],
                        ),
                decreases count - k,
            {
                let ghost earlier = cluster.nodes@;
                cluster.add_node(Some(dc));
                proof {
                    assert(cluster.nodes@.drop_last() == earlier);
                    assert forall|j: int| 0 <= j < cluster.nodes@.len() implies fresh.allocates(
                        cluster.nodes@.take(j),
                        cluster.nodes@[j].datacenter_id,
                        #[trigger] cluster.nodes@[j],
                    ) by {
                        if j < earlier.len() {
                            assert(cluster.nodes@.take(j) =~= earlier.take(j));
                            assert(cluster.nodes@[j] == earlier[j]);
                        } else {
                            assert(cluster.nodes@.take(j) =~= earlier);
                        }
                    }
                    let now = datacenters_of(cluster.nodes@);
                    let target = before + Seq::new((k + 1) as nat, |i: int| dc);
                    let so_far = before + Seq::new(k as nat, |i: int| dc);
                    assert(datacenters_of(earlier) == so_far);
                    assert(so_far.len() == earlier.len());
                    assert(cluster.nodes@.last().datacenter_id == dc);
                    assert forall|i: int| 0 <= i < now.len() implies now[i] == target[i] by {
                        if i < earlier.len() {
                            assert(cluster.nodes@[i] == cluster.nodes@.drop_last()[i]);
                            assert(now[i] == datacenters_of(earlier)[i]);
                            assert(so_far[i] == target[i]);
                        }
                    }
                    assert(now =~= target);
                }
                k = k + 1;
            }
            proof {
                let upto = number_of_nodes@.take(d + 1);
                assert(upto.drop_last() =~= number_of_nodes@.take(d as int));
                assert(upto.last() == count);
                assert(upto.len() == d + 1);
                let n: nat = if count > 0 {
                    count as nat
                } else {
                    0
                };
                assert(Seq::new(n, |k: int| upto.len() as i32) =~= Seq::new(k as nat, |i: int| dc));
            }
            d = d + 1;
        }
        assert(number_of_nodes@.take(d as int) =~= number_of_nodes@);
        cluster
    }

    /// The file that the cluster's log is appended to.
    pub fn log_file_name(&self) -> (r: String)
        ensures
            r@ == self.install_directory@ + "/"@ + self.name@ + ".log"@,
    {
        let mut path = self.install_directory.clone();
        path.append("/");
        path.append(self.name.as_str());
        path.append(".log");
        path
    }

    /// The directory in which the tool keeps the cluster's state. What is
    /// left there of an earlier cluster of this name is removed before the
    /// cluster is created.
    pub fn state_directory(&self) -> (r: String)
        ensures
            r@ == self.install_directory@ + "/"@ + self.name@,
    {
        let mut path = self.install_directory.clone();
        path.append("/");
        path.append(self.name.as_str());
        path
    }

    fn cluster_step(&self, verb: &str, best_effort: bool) -> (r: Step)
        ensures
            issues(
                r.invocation,
                seq![verb@, self.name@, "--config-dir"@, self.install_directory@],
                None,
            ),
            r.best_effort == best_effort,
    {
        let mut args: Vec<String> = Vec::new();
        assert(views(args@) =~= Seq::<Seq<char>>::empty());
        push_arg(&mut args, verb);
        push_arg(&mut args, self.name.as_str());
        push_arg(&mut args, "--config-dir");
        push_arg(&mut args, self.install_directory.as_str());
        assert(views(args@) =~= seq![verb@, self.name@, "--config-dir"@, self.install_directory@]);
        Step { invocation: Invocation { command: tool(), args, options: None }, best_effort }
    }

    /// The plan that sets the cluster up: one invocation that creates it,
    /// then one for each node, in the order of their creation, that adds
    /// the node. The first failure ends the plan; nothing is rolled back.
    pub fn init(&self) -> (r: Plan)
        ensures
            r.done == 0,
            r.failure is None,
            r.steps@.len() == self.nodes@.len() + 1,
            issues(r.steps@[0].invocation, self.spec_create_args(), None),
            forall|i: int|
                0 <= i < self.nodes@.len() ==> issues(
                    (#[trigger] r.steps@[i + 1]).invocation,
                    self.nodes@[i].spec_init_args(),
                    Some(self.nodes@[i].spec_ccm_env()),
                ),
            forall|i: int| 0 <= i < r.steps@.len() ==> !(#[trigger] r.steps@[i]).best_effort,
    {
        let mut args: Vec<String> = Vec::new();
        assert(views(args@) =~= Seq::<Seq<char>>::empty());
        push_arg(&mut args, "create");
        push_arg(&mut args, self.name.as_str());
        push_arg(&mut args, "-v");
        push_arg(&mut args, self.version.as_str());
        push_arg(&mut args, "-i");
        push_arg(&mut args, self.ip_prefix.as_str());
        push_arg(&mut args, "--config-dir");
        push_arg(&mut args, self.install_directory.as_str());
        if self.scylla {
            push_arg(&mut args, "--scylla");
        }
        assert(views(args@) =~= self.spec_create_args());
        let mut steps: Vec<Step> = Vec::new();
        steps.push(
            Step {
                invocation: Invocation { command: tool(), args, options: None },
                best_effort: false,
            },
        );
        let mut i: usize = 0;
        while i < self.nodes.len()
            invariant
                i <= self.nodes@.len(),
                steps@.len() == i + 1,
                issues(steps@[0].invocation, self.spec_create_args(), None),
                forall|j: int|
                    0 <= j < i ==> issues(
                        (#[trigger] steps@[j + 1]).invocation,
                        self.nodes@[j].spec_init_args(),
                        Some(self.nodes@[j].spec_ccm_env()),
                    ),
                forall|j: int| 0 <= j < steps@.len() ==> !(#[trigger] steps@[j]).best_effort,
            decreases self.nodes@.len() - i,
        {
            steps.push(Step { invocation: self.nodes[i].init(), best_effort: false });
            i = i + 1;
        }
        Plan::new(steps)
    }

    /// The plan that starts the cluster: one invocation for each node, in
    /// the order of their creation, one at a time. The first failure ends
    /// the plan.
    pub fn start(&self, opts: Option<&[NodeStartOption]>) -> (r: Plan)
        ensures
            r.done == 0,
            r.failure is None,
            r.steps@.len() == self.nodes@.len(),
            forall|i: int|
                0 <= i < self.nodes@.len() ==> issues(
                    (#[trigger] r.steps@[i]).invocation,
                    self.nodes@[i].spec_start_args(opts),
                    Some(self.nodes@[i].spec_ccm_env()),
                ) && !r.steps@[i].best_effort,
    {
        let mut steps: Vec<Step> = Vec::new();
        let mut i: usize = 0;
        while i < self.nodes.len()
            invariant
                i <= self.nodes@.len(),
                steps@.len() == i,
                forall|j: int|
                    0 <= j < i ==> issues(
                        (#[trigger] steps@[j]).invocation,
                        self.nodes@[j].spec_start_args(opts),
                        Some(self.nodes@[j].spec_ccm_env()),
                    ) && !steps@[j].best_effort,
            decreases self.nodes@.len() - i,
        {
            steps.push(Step { invocation: self.nodes[i].start(opts), best_effort: false });
            i = i + 1;
        }
        Plan::new(steps)
    }

    /// The plan that stops the cluster: nothing for a destroyed cluster,
    /// else one invocation, whose result is the plan's.
    pub fn stop(&self) -> (r: Plan)
        ensures
            r.done == 0,
            r.failure is None,
            self.destroyed ==> r.steps@.len() == 0,
            !self.destroyed ==> r.steps@.len() == 1 && issues(
                r.steps@[0].invocation,
                self.spec_stop_args(),
                None,
            ) && !r.steps@[0].best_effort,
    {
        let mut steps: Vec<Step> = Vec::new();
        if !self.destroyed {
            steps.push(self.cluster_step("stop", false));
        }
        Plan::new(steps)
    }

    /// The plan that destroys the cluster: nothing for a destroyed cluster,
    /// else one invocation that stops it, whose failure is ignored, and one
    /// that removes it. [`Cluster::finish_destroy`] takes the plan's result.
    pub fn destroy(&self) -> (r: Plan)
        ensures
            r.done == 0,
            r.failure is None,
            self.destroyed ==> r.steps@.len() == 0,
            !self.destroyed ==> {
                &&& r.steps@.len() == 2
                &&& issues(r.steps@[0].invocation, self.spec_stop_args(), None)
                &&& r.steps@[0].best_effort
                &&& issues(r.steps@[1].invocation, self.spec_remove_args(), None)
                &&& !r.steps@[1].best_effort
            },
    {
        let mut steps: Vec<Step> = Vec::new();
        if !self.destroyed {
            steps.push(self.cluster_step("stop", true));
            steps.push(self.cluster_step("remove", false));
        }
        Plan::new(steps)
    }

    /// Takes the result of the plan of [`Cluster::destroy`]: on success the
    /// cluster is destroyed, and stays so; on failure it is as it was.
    pub fn finish_destroy(&mut self, outcome: Result<(), RunError>) -> (r: Result<(), RunError>)
        ensures
            r == outcome,
            final(self).destroyed == (old(self).destroyed || outcome is Ok),
            final(self).nodes == old(self).nodes,
            final(self).same_settings(old(self)),
    {
        if outcome.is_ok() {
            self.destroyed = true;
        }
        outcome
    }
}

/// Whether no two of the nodes share a datacenter and an identifier from 1
/// to 255.
pub open spec fn ids_are_unique(nodes: Seq<Node>) -> bool {
    forall|i: int, j: int|
        0 <= i < j < nodes.len() && (#[trigger] nodes[i]).datacenter_id == (
        #[trigger] nodes[j]).datacenter_id && nodes[i].node_id == nodes[j].node_id
            ==> nodes[i].node_id > 255 || nodes[i].node_id < 1
}

/// The free identifier of a datacenter is the lowest that is not in use:
/// it lies between 1 and 256, no node of the datacenter has it unless it
/// is 256, and every lower identifier from 1 on is in use.
pub proof fn free_node_id_is_lowest(nodes: Seq<Node>, datacenter_id: i32)
    ensures
        1 <= free_node_id(nodes, datacenter_id) <= 256,
        free_node_id(nodes, datacenter_id) <= 255 ==> !id_in_use(
            nodes,
            datacenter_id,
            free_node_id(nodes, datacenter_id),
        ),
        forall|id: int|
            1 <= id < free_node_id(nodes, datacenter_id) ==> id_in_use(nodes, datacenter_id, id),
{
    lowest_free_is_lowest(nodes, datacenter_id, 1);
}

proof fn lowest_free_is_lowest(nodes: Seq<Node>, datacenter_id: i32, from: int)
    requires
        1 <= from <= 256,
    ensures
        from <= lowest_free_from(nodes, datacenter_id, from) <= 256,
        lowest_free_from(nodes, datacenter_id, from) <= 255 ==> !id_in_use(
            nodes,
            datacenter_id,
            lowest_free_from(nodes, datacenter_id, from),
        ),
        forall|id: int|
            from <= id < lowest_free_from(nodes, datacenter_id, from) ==> id_in_use(
                nodes,
                datacenter_id,
                id,
            ),
    decreases 256 - from,
{
    if from <= 255 && id_in_use(nodes, datacenter_id, from) {
        lowest_free_is_lowest(nodes, datacenter_id, from + 1);
    }
}

/// Allocation keeps identifiers unique: where no two nodes share a
/// datacenter and an identifier from 1 to 255, a node that is added with
/// the free identifier of its datacenter shares its own with none.
pub proof fn allocation_keeps_ids_unique(nodes: Seq<Node>, node: Node)
    requires
        ids_are_unique(nodes),
        node.node_id == free_node_id(nodes, node.datacenter_id),
    ensures
        ids_are_unique(nodes.push(node)),
{
    free_node_id_is_lowest(nodes, node.datacenter_id);
    let grown = nodes.push(node);
    assert forall|i: int, j: int|
        0 <= i < j < grown.len() && (#[trigger] grown[i]).datacenter_id == (
        #[trigger] grown[j]).datacenter_id && grown[i].node_id == grown[j].node_id implies grown[i].node_id
        > 255 || grown[i].node_id < 1 by {
        if j < nodes.len() {
            assert(grown[i] == nodes[i] && grown[j] == nodes[j]);
        } else {
            assert(grown[i] == nodes[i]);
            if 1 <= node.node_id <= 255 {
                assert(id_in_use(nodes, node.datacenter_id, node.node_id as int));
            }
        }
    }
}

} // verus!
