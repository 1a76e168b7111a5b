use kelper::{
    extract_container_digest, process_pod, Container, ContainerStatus, PodImage, PodResource,
    PodSpec, PodStatus,
};

fn container(name: &str, image: Option<&str>) -> Container {
    Container { name: name.to_string(), image: image.map(|s| s.to_string()) }
}

fn status(name: &str, image_id: &str) -> ContainerStatus {
    ContainerStatus { name: name.to_string(), image_id: image_id.to_string() }
}

fn pod(
    name: &str,
    namespace: &str,
    node: Option<&str>,
    containers: Vec<Container>,
    statuses: Option<Vec<ContainerStatus>>,
) -> PodResource {
    PodResource {
        name: Some(name.to_string()),
        namespace: Some(namespace.to_string()),
        spec: Some(PodSpec { node_name: node.map(|s| s.to_string()), containers }),
        status: Some(PodStatus { container_statuses: statuses }),
    }
}

fn record(
    pod_name: &str,
    namespace: &str,
    node: &str,
    container: &str,
    registry: &str,
    name: &str,
    version: &str,
    digest: &str,
) -> PodImage {
    PodImage {
        pod_name: pod_name.to_string(),
        node_name: node.to_string(),
        namespace: namespace.to_string(),
        container_name: container.to_string(),
        image_name: name.to_string(),
        image_version: version.to_string(),
        registry: registry.to_string(),
        digest: digest.to_string(),
    }
}

#[test]
fn two_containers_without_registry() {
    let p = pod(
        "web",
        "prod",
        Some("node-1"),
        vec![container("app", Some("app:v1")), container("sidecar", Some("sidecar"))],
        None,
    );
    let images = process_pod(&p);
    assert_eq!(
        images,
        vec![
            record("web", "prod", "node-1", "app", "docker.io", "app", "v1", ""),
            record("web", "prod", "node-1", "sidecar", "docker.io", "sidecar", "latest", ""),
        ]
    );
}

#[test]
fn processing_twice_gives_the_same_records() {
    let p = pod(
        "web",
        "prod",
        Some("node-1"),
        vec![
            container("z", Some("ghcr.io/org/z:1")),
            container("a", Some("a")),
            container("m", Some("quay.io/m@sha256:00")),
        ],
        Some(vec![status("m", "sha256:00"), status("z", "sha256:11")]),
    );
    let first = process_pod(&p);
    let second = process_pod(&p);
    assert_eq!(first, second);
    let names: Vec<&str> = first.iter().map(|r| r.container_name.as_str()).collect();
    assert_eq!(names, vec!["z", "a", "m"]);
}

#[test]
fn registry_is_stripped_and_digest_read_from_status() {
    let p = pod(
        "api",
        "default",
        Some("n2"),
        vec![container("api", Some("ghcr.io/org/api:2.0")), container("init", Some("busybox"))],
        Some(vec![status("api", "sha256:abc123")]),
    );
    let images = process_pod(&p);
    assert_eq!(
        images,
        vec![
            record("api", "default", "n2", "api", "ghcr.io", "org/api", "2.0", "abc123"),
            record("api", "default", "n2", "init", "docker.io", "busybox", "latest", ""),
        ]
    );
}

#[test]
fn containers_without_image_are_skipped() {
    let p = pod(
        "p",
        "ns",
        None,
        vec![container("a", None), container("b", Some("")), container("c", Some("c:1"))],
        None,
    );
    let images = process_pod(&p);
    assert_eq!(images, vec![record("p", "ns", "", "c", "docker.io", "c", "1", "")]);
}

#[test]
fn pod_without_spec_or_metadata_yields_nothing() {
    let p = PodResource { name: None, namespace: None, spec: None, status: None };
    assert!(process_pod(&p).is_empty());
    let q = PodResource {
        name: None,
        namespace: None,
        spec: Some(PodSpec { node_name: None, containers: vec![container("x", Some("x"))] }),
        status: None,
    };
    assert_eq!(process_pod(&q), vec![record("", "", "", "x", "docker.io", "x", "latest", "")]);
}

#[test]
fn digest_comes_from_first_matching_status() {
    let p = pod(
        "p",
        "ns",
        None,
        vec![container("a", Some("a"))],
        Some(vec![
            status("b", "sha256:bbb"),
            status("a", "sha256:first"),
            status("a", "sha256:second"),
            status("c", "noalgorithm"),
        ]),
    );
    assert_eq!(extract_container_digest(&p, "a"), Some("first".to_string()));
    assert_eq!(extract_container_digest(&p, "c"), None);
    assert_eq!(extract_container_digest(&p, "missing"), None);
}

#[test]
fn digest_keeps_text_after_first_colon() {
    let p = pod("p", "ns", None, vec![], Some(vec![status("a", "docker://sha256:ff")]));
    assert_eq!(extract_container_digest(&p, "a"), Some("//sha256:ff".to_string()));
}

#[test]
fn empty_tag_before_digest_gives_latest() {
    let p = pod("p", "ns", Some("n"), vec![container("app", Some("app:@sha256:x"))], None);
    let images = process_pod(&p);
    assert_eq!(images, vec![record("p", "ns", "n", "app", "docker.io", "app", "latest@sha256:x", "")]);
    assert!(images.iter().all(|r| !r.image_version.starts_with('@') && !r.registry.is_empty()));
}
