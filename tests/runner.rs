use exp::runner::{ContainerConfig, Lifecycle, MountKind, Teardown};

fn config(name: &str) -> ContainerConfig {
    ContainerConfig {
        name: name.to_string(),
        image_name: "nginx".to_string(),
        image_tag: "alpine".to_string(),
        pull: false,
        network: None,
        network_subnet: None,
        command: None,
        ports: None,
        capabilities: None,
        cpu_millis: None,
        memory: None,
        tmpfs: Vec::new(),
        volumes: Vec::new(),
    }
}

fn describe(step: &Teardown) -> String {
    match step {
        Teardown::Signal => "signal".to_string(),
        Teardown::JoinCollectors => "join".to_string(),
        Teardown::StopContainer { name } => format!("stop {}", name),
        Teardown::RemoveContainer { name } => format!("remove {}", name),
        Teardown::RemoveNetwork { name } => format!("remove network {}", name),
    }
}

#[test]
fn create_params_follow_the_configuration() {
    let mut c = config("web");
    c.ports = Some(vec![("90".to_string(), "80".to_string())]);
    c.capabilities = Some(vec!["NET_ADMIN".to_string()]);
    c.cpu_millis = Some(1500);
    c.memory = Some(1 << 30);
    c.tmpfs = vec!["/tmp".to_string()];
    c.volumes = vec![("/host".to_string(), "/data".to_string())];
    c.command = Some(vec!["sleep".to_string(), "5".to_string()]);
    let p = c.to_create_params();
    assert_eq!(p.image, "nginx:alpine");
    assert_eq!(p.ports.len(), 1);
    assert_eq!(p.ports[0].container_port, "80/tcp");
    assert_eq!(p.ports[0].host_port, "90");
    assert_eq!(p.network_mode, "default");
    assert_eq!(p.cap_add, Some(vec!["NET_ADMIN".to_string()]));
    assert_eq!(p.cpu_period, Some(100000));
    assert_eq!(p.cpu_quota, Some(150000));
    assert_eq!(p.memory, Some(1 << 30));
    assert_eq!(p.cmd, Some(vec!["sleep".to_string(), "5".to_string()]));
    assert_eq!(p.mounts.len(), 2);
    assert_eq!(p.mounts[0].target, "/tmp");
    assert_eq!(p.mounts[0].kind, MountKind::Tmpfs);
    assert_eq!(p.mounts[0].source, None);
    assert_eq!(p.mounts[1].target, "/data");
    assert_eq!(p.mounts[1].source, Some("/host".to_string()));
    assert_eq!(p.mounts[1].kind, MountKind::Bind);
}

#[test]
fn cpu_quota_saturates() {
    let mut c = config("big");
    c.cpu_millis = Some(u64::MAX);
    assert_eq!(c.to_create_params().cpu_quota, Some(i64::MAX));
    c.cpu_millis = None;
    let p = c.to_create_params();
    assert_eq!(p.cpu_quota, None);
    assert_eq!(p.cpu_period, None);
}

#[test]
fn network_is_created_only_when_absent() {
    let mut life = Lifecycle::new();
    let mut c = config("a");
    c.network = Some("exp-net".to_string());
    c.network_subnet = Some("10.0.0.0/24".to_string());
    let plan = life.add_container(&c, &Vec::new());
    let req = plan.network.expect("network to create");
    assert_eq!(req.name, "exp-net");
    assert_eq!(req.subnet, Some("10.0.0.0/24".to_string()));
    assert_eq!(plan.params.network_mode, "exp-net");

    let mut d = config("b");
    d.network = Some("exp-net".to_string());
    let plan = life.add_container(&d, &vec!["exp-net".to_string()]);
    assert!(plan.network.is_none());
    assert_eq!(life.networks, vec!["exp-net".to_string()]);
    assert_eq!(life.containers, vec!["a".to_string(), "b".to_string()]);
}

#[test]
fn preexisting_network_is_not_removed() {
    let mut life = Lifecycle::new();
    let mut c = config("a");
    c.network = Some("shared".to_string());
    life.add_container(&c, &vec!["shared".to_string()]);
    let steps: Vec<String> = life.teardown_plan().iter().map(describe).collect();
    assert_eq!(steps, vec!["signal", "join", "stop a", "remove a"]);
}

#[test]
fn teardown_joins_collectors_before_stopping_anything() {
    let mut life = Lifecycle::new();
    let mut c = config("one");
    c.network = Some("net".to_string());
    life.add_container(&c, &Vec::new());
    life.add_container(&config("two"), &Vec::new());
    let steps: Vec<String> = life.teardown_plan().iter().map(describe).collect();
    assert_eq!(
        steps,
        vec![
            "signal",
            "join",
            "stop one",
            "remove one",
            "stop two",
            "remove two",
            "remove network net"
        ]
    );
}

#[test]
fn pull_is_planned_when_asked_for() {
    let mut life = Lifecycle::new();
    let mut c = config("p");
    c.pull = true;
    let plan = life.add_container(&c, &Vec::new());
    assert_eq!(plan.pull, Some("nginx:alpine".to_string()));
    let plan = life.add_container(&config("q"), &Vec::new());
    assert_eq!(plan.pull, None);
}
