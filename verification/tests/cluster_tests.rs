use ccm_cluster::cluster::{
    Cluster, ClusterError, InstallAction, Node, NodeStartOption, NodeStatus, PathKind,
};
use ccm_cluster::cluster_config::ScyllaConfig;
use ccm_cluster::plan::{Invocation, Plan};
use ccm_cluster::runner::{ExitStatus, RunError};

fn words(items: &[&str]) -> Vec<String> {
    items.iter().map(|s| s.to_string()).collect()
}

fn ok() -> Result<ExitStatus, RunError> {
    Ok(ExitStatus { code: Some(0) })
}

fn failed(code: i32) -> Result<ExitStatus, RunError> {
    Err(RunError::CommandFailed(ExitStatus { code: Some(code) }))
}

fn cluster(counts: Vec<i32>) -> Cluster {
    Cluster::new(
        "test_cluster".to_string(),
        "release:6.2".to_string(),
        "127.0.1",
        &counts,
        "/tmp/ccm".to_string(),
        true,
    )
}

fn node(datacenter_id: i32, node_id: i32) -> Node {
    Node::new(datacenter_id, node_id, false, 2, 0, ScyllaConfig::Null, "/tmp/ccm".to_string())
}

// Runs a plan to its end, answering each invocation with the next result, and
// success once the results run out. Returns the invocations issued.
fn run(mut plan: Plan, mut results: Vec<Result<ExitStatus, RunError>>) -> (Vec<Invocation>, Result<(), RunError>) {
    results.reverse();
    let mut issued = Vec::new();
    while let Some(invocation) = plan.next() {
        issued.push(invocation.clone());
        plan.report(results.pop().unwrap_or(ok()));
    }
    assert!(plan.finished());
    (issued, plan.outcome().unwrap())
}

fn verbs(issued: &[Invocation]) -> Vec<String> {
    issued.iter().map(|i| format!("{} {}", i.args[0], i.args[1])).collect()
}

#[test]
fn free_node_id_is_the_lowest_unused() {
    let mut c = cluster(vec![]);
    for id in [1, 2, 4] {
        c.nodes.push(node(1, id));
    }
    assert_eq!(c.get_free_node_id(1), 3);
    assert_eq!(c.get_free_node_id(2), 1);
    c.nodes.push(node(2, 1));
    assert_eq!(c.get_free_node_id(2), 2);
    assert_eq!(c.get_free_node_id(1), 3);
}

#[test]
fn free_node_id_of_a_full_datacenter_is_256() {
    let mut c = cluster(vec![]);
    for id in 1..=255 {
        c.nodes.push(node(1, id));
    }
    assert_eq!(c.get_free_node_id(1), 256);
    assert_eq!(c.get_free_node_id(3), 1);
    assert_eq!(c.add_node(None).node_id, 256);
    assert_eq!(c.add_node(Some(1)).name, "node_1_256");
    assert_eq!(c.nodes.len(), 257);
}

#[test]
fn deleted_nodes_keep_their_id() {
    let mut c = cluster(vec![2]);
    c.nodes[0].mark_deleted();
    assert_eq!(c.nodes[0].status, NodeStatus::DELETED);
    assert_eq!(c.get_free_node_id(1), 3);
}

#[test]
fn new_cluster_allocates_nodes_by_datacenter() {
    let c = cluster(vec![3, 0, 2, -1]);
    let got: Vec<(i32, i32, String)> =
        c.nodes.iter().map(|n| (n.datacenter_id, n.node_id, n.name.clone())).collect();
    assert_eq!(
        got,
        vec![
            (1, 1, "node_1_1".to_string()),
            (1, 2, "node_1_2".to_string()),
            (1, 3, "node_1_3".to_string()),
            (3, 1, "node_3_1".to_string()),
            (3, 2, "node_3_2".to_string()),
        ]
    );
    assert_eq!(c.ip_prefix, "127.0.1.");
    assert!(!c.destroyed);
    assert_eq!(c.default_node_smp, 1);
    assert_eq!(c.default_node_memory, 512);
    assert!(c.default_node_config.is_none());
    for n in &c.nodes {
        assert_eq!(n.status, NodeStatus::ACTIVE);
        assert!(n.scylla);
        assert_eq!(n.smp, 1);
        assert_eq!(n.memory, 512);
        assert_eq!(n.install_directory, "/tmp/ccm");
        assert_eq!(n.config.debug_string(), "Null");
    }
}

#[test]
fn prefix_gets_a_dot_only_where_it_has_none() {
    let with = Cluster::new("c".into(), "v".into(), "127.0.7.", &vec![], "/d".into(), false);
    assert_eq!(with.ip_prefix, "127.0.7.");
    let without = Cluster::new("c".into(), "v".into(), "127.0.7", &vec![], "/d".into(), false);
    assert_eq!(without.ip_prefix, "127.0.7.");
    let empty = Cluster::new("c".into(), "v".into(), "", &vec![], "/d".into(), false);
    assert_eq!(empty.ip_prefix, ".");
}

#[test]
fn file_names_follow_the_install_directory() {
    let c = cluster(vec![]);
    assert_eq!(c.log_file_name(), "/tmp/ccm/test_cluster.log");
    assert_eq!(c.state_directory(), "/tmp/ccm/test_cluster");
}

#[test]
fn install_path_must_be_a_directory_or_missing() {
    assert_eq!(Cluster::install_action("/tmp/ccm", PathKind::Directory), Ok(InstallAction::UseExisting));
    assert_eq!(Cluster::install_action("/tmp/ccm", PathKind::Missing), Ok(InstallAction::CreateDirectory));
    assert_eq!(
        Cluster::install_action("/tmp/ccm", PathKind::NotDirectory),
        Err(ClusterError::InstallPathConflict("/tmp/ccm".to_string()))
    );
}

#[test]
fn node_defaults_and_ports() {
    let n = Node::new(1, 3, true, 2, 0, ScyllaConfig::Null, "/tmp/ccm".to_string());
    assert_eq!(n.name, "node_1_3");
    assert_eq!(n.memory, 1024);
    assert_eq!(n.jmx_port(), 7103);
    assert_eq!(n.debug_port(), 2103);
    let m = Node::new(12, 255, false, 4, 300, ScyllaConfig::Null, "/x".to_string());
    assert_eq!(m.memory, 300);
    assert_eq!(m.jmx_port(), 8455);
    assert_eq!(m.debug_port(), 3455);
    // Datacenter 1 with node 101 and datacenter 2 with node 1 share their ports.
    assert_eq!(node(1, 101).jmx_port(), node(2, 1).jmx_port());
    let wide = Node::new(i32::MAX, 256, false, i32::MAX, 0, ScyllaConfig::Null, String::new());
    assert_eq!(wide.jmx_port(), 214748371956);
    assert_eq!(wide.memory, 1099511627264);
    assert_eq!(
        wide.get_ccm_env(),
        vec![("SCYLLA_EXT_OPTS".to_string(), "--smp=2147483647 --memory=1099511627264M".to_string())]
    );
}

#[test]
fn node_init_names_datacenter_ports_and_directory() {
    let n = Node::new(1, 3, true, 2, 0, ScyllaConfig::Null, "/tmp/ccm".to_string());
    let inv = n.init();
    assert_eq!(inv.command, "ccm");
    assert_eq!(
        inv.args,
        words(&[
            "add",
            "node_1_3",
            "--data-center",
            "dc1",
            "--jmx-port",
            "7103",
            "--remote-debug-port",
            "2103",
            "--config-dir",
            "/tmp/ccm",
            "--scylla",
        ])
    );
    let options = inv.options.unwrap();
    assert_eq!(
        options.env,
        vec![("SCYLLA_EXT_OPTS".to_string(), "--smp=2 --memory=1024M".to_string())]
    );
    assert_eq!(options.allow_failure, None);
    assert_eq!(node(2, 5).init().args.len(), 10);
}

#[test]
fn node_start_keeps_the_order_of_its_options() {
    let n = node(1, 1);
    assert_eq!(n.start(None).args, words(&["start", "node_1_1", "--config-dir", "/tmp/ccm"]));
    let opts = [
        NodeStartOption::WaitForBinaryProto,
        NodeStartOption::NOWAIT,
        NodeStartOption::WaitOtherNotice,
        NodeStartOption::NOWAIT,
    ];
    let inv = n.start(Some(&opts));
    assert_eq!(
        inv.args,
        words(&[
            "start",
            "node_1_1",
            "--config-dir",
            "/tmp/ccm",
            "--wait-for-binary-proto",
            "--no-wait",
            "--wait-other-notice",
            "--no-wait",
        ])
    );
    assert_eq!(inv.options.unwrap().env[0].1, "--smp=2 --memory=1024M");
    assert_eq!(n.start(Some(&[])).args.len(), 4);
}

#[test]
fn node_delete_marks_deleted_only_on_success() {
    let mut n = node(1, 1);
    let inv = n.delete();
    assert_eq!(inv.command, "ccm");
    assert_eq!(inv.args, words(&["remove", "node_1_1"]));
    assert!(inv.options.is_none());
    assert_eq!(n.finish_delete(failed(1)), Err(RunError::CommandFailed(ExitStatus { code: Some(1) })));
    assert_eq!(n.status, NodeStatus::ACTIVE);
    assert_eq!(n.finish_delete(ok()), Ok(()));
    assert_eq!(n.status, NodeStatus::DELETED);
    assert_eq!(n.finish_delete(failed(1)), Err(RunError::CommandFailed(ExitStatus { code: Some(1) })));
    assert_eq!(n.status, NodeStatus::DELETED);
}

#[test]
fn node_defaults_follow_the_cluster() {
    let mut c = cluster(vec![1]);
    c.set_default_node_smp(4);
    c.set_default_node_memory(0);
    c.set_default_node_config(ScyllaConfig::Mapping(vec![("a".to_string(), ScyllaConfig::Int(1))]));
    let n = c.add_node(Some(7));
    assert_eq!((n.datacenter_id, n.node_id), (7, 1));
    assert_eq!(n.smp, 4);
    assert_eq!(n.memory, 2048);
    assert_eq!(n.config.to_flat_string(), "a:1");
    c.set_default_node_memory(100);
    assert_eq!(c.add_node(None).memory, 100);
    let last = c.nodes.last().unwrap();
    assert_eq!((last.datacenter_id, last.node_id), (1, 2));
    assert_eq!(c.nodes[0].smp, 1);
}

#[test]
fn lifecycle_issues_each_call_once_and_in_order() {
    let mut c = cluster(vec![3]);

    let (issued, outcome) = run(c.init(), vec![]);
    assert_eq!(outcome, Ok(()));
    assert_eq!(
        verbs(&issued),
        vec!["create test_cluster", "add node_1_1", "add node_1_2", "add node_1_3"]
    );
    assert_eq!(
        issued[0].args,
        words(&[
            "create",
            "test_cluster",
            "-v",
            "release:6.2",
            "-i",
            "127.0.1.",
            "--config-dir",
            "/tmp/ccm",
            "--scylla",
        ])
    );
    assert!(issued[0].options.is_none());

    let (issued, outcome) = run(c.start(None), vec![]);
    assert_eq!(outcome, Ok(()));
    assert_eq!(verbs(&issued), vec!["start node_1_1", "start node_1_2", "start node_1_3"]);

    let (issued, outcome) = run(c.stop(), vec![]);
    assert_eq!(outcome, Ok(()));
    assert_eq!(issued.len(), 1);
    assert_eq!(issued[0].args, words(&["stop", "test_cluster", "--config-dir", "/tmp/ccm"]));

    let (issued, outcome) = run(c.destroy(), vec![]);
    assert_eq!(verbs(&issued), vec!["stop test_cluster", "remove test_cluster"]);
    assert_eq!(issued[1].args, words(&["remove", "test_cluster", "--config-dir", "/tmp/ccm"]));
    assert_eq!(c.finish_destroy(outcome), Ok(()));
    assert!(c.destroyed);

    let (issued, outcome) = run(c.destroy(), vec![]);
    assert!(issued.is_empty());
    assert_eq!(c.finish_destroy(outcome), Ok(()));
    assert!(c.destroyed);
    let (issued, outcome) = run(c.stop(), vec![]);
    assert!(issued.is_empty());
    assert_eq!(outcome, Ok(()));
}

#[test]
fn init_stops_at_the_first_failure() {
    let c = cluster(vec![3]);
    let (issued, outcome) = run(c.init(), vec![ok(), ok(), failed(1)]);
    assert_eq!(verbs(&issued), vec!["create test_cluster", "add node_1_1", "add node_1_2"]);
    assert_eq!(outcome, Err(RunError::CommandFailed(ExitStatus { code: Some(1) })));
    let (issued, outcome) = run(c.init(), vec![failed(9)]);
    assert_eq!(issued.len(), 1);
    assert_eq!(outcome, Err(RunError::CommandFailed(ExitStatus { code: Some(9) })));
    let (issued, outcome) =
        run(c.start(Some(&[NodeStartOption::NOWAIT])), vec![Err(RunError::SpawnFailed("x".into()))]);
    assert_eq!(issued.len(), 1);
    assert_eq!(issued[0].args[4], "--no-wait");
    assert_eq!(outcome, Err(RunError::SpawnFailed("x".to_string())));
}

#[test]
fn destroy_ignores_a_failed_stop_but_not_a_failed_remove() {
    let mut c = cluster(vec![1]);
    let (issued, outcome) = run(c.destroy(), vec![failed(1), failed(2)]);
    assert_eq!(issued.len(), 2);
    assert_eq!(outcome, Err(RunError::CommandFailed(ExitStatus { code: Some(2) })));
    assert_eq!(c.finish_destroy(outcome), Err(RunError::CommandFailed(ExitStatus { code: Some(2) })));
    assert!(!c.destroyed);

    let (issued, outcome) = run(c.destroy(), vec![failed(1), ok()]);
    assert_eq!(issued.len(), 2);
    assert_eq!(c.finish_destroy(outcome), Ok(()));
    assert!(c.destroyed);
    assert_eq!(c.finish_destroy(Err(RunError::WaitFailed("late".into()))), Err(RunError::WaitFailed("late".to_string())));
    assert!(c.destroyed);

    let c = cluster(vec![1]);
    let (issued, outcome) = run(c.stop(), vec![failed(3)]);
    assert_eq!(issued.len(), 1);
    assert_eq!(outcome, Err(RunError::CommandFailed(ExitStatus { code: Some(3) })));
}

#[test]
fn plan_reports_nothing_until_it_is_over() {
    let c = cluster(vec![1]);
    let mut plan = c.init();
    assert!(!plan.finished());
    assert_eq!(plan.next().unwrap().args[0], "create");
    assert_eq!(plan.next().unwrap().args[0], "create");
    plan.report(ok());
    assert_eq!(plan.next().unwrap().args[0], "add");
    assert_eq!(plan.done, 1);
    assert!(c.init().outcome().is_none());
    plan.report(ok());
    assert!(plan.next().is_none());
    plan.report(failed(1));
    assert_eq!(plan.done, 2);
    assert_eq!(plan.outcome(), Some(Ok(())));
}
