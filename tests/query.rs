use kelper::{
    build_field_selector, columns_for, not_found_description, plan_query, select_pod_images,
    should_process_pod, Columns, Container, K8sError, ListScope, PodResource, PodSpec,
};

fn pod(name: &str, namespace: &str, node: &str, images: &[&str]) -> PodResource {
    PodResource {
        name: Some(name.to_string()),
        namespace: Some(namespace.to_string()),
        spec: Some(PodSpec {
            node_name: Some(node.to_string()),
            containers: images
                .iter()
                .enumerate()
                .map(|(i, image)| Container {
                    name: format!("c{}", i),
                    image: Some(image.to_string()),
                })
                .collect(),
        }),
        status: None,
    }
}

fn cluster() -> Vec<PodResource> {
    vec![
        pod("web", "prod", "node-a", &["nginx:1.25", "ghcr.io/org/proxy:2"]),
        pod("api", "prod", "node-b", &["ghcr.io/org/api:1"]),
        pod("job", "batch", "node-a", &["quay.io/tools/job:7", "busybox"]),
        pod("db", "batch", "node-b", &["postgres:16"]),
    ]
}

#[test]
fn node_filter_keeps_only_that_node() {
    let pods = cluster();
    let images = select_pod_images(&pods, "prod", Some("node-a"), None, None).unwrap();
    assert_eq!(images.len(), 4);
    assert!(images.iter().all(|r| r.node_name == "node-a"));
    let pods_seen: Vec<&str> = images.iter().map(|r| r.pod_name.as_str()).collect();
    assert_eq!(pods_seen, vec!["web", "web", "job", "job"]);
}

#[test]
fn node_filter_spans_namespaces() {
    let q = plan_query("prod", Some("node-a"), None, false);
    assert_eq!(q.scope, ListScope::AllNamespaces);
    let q = plan_query("prod", Some("node-a"), None, true);
    assert_eq!(q.scope, ListScope::AllNamespaces);
    let q = plan_query("prod", None, None, false);
    assert_eq!(q.scope, ListScope::Namespace("prod".to_string()));
    assert_eq!(q.field_selector, "");
}

#[test]
fn registry_filter_keeps_only_that_registry() {
    let pods = cluster();
    let images = select_pod_images(&pods, "prod", None, None, Some("ghcr.io")).unwrap();
    let names: Vec<&str> = images.iter().map(|r| r.image_name.as_str()).collect();
    assert_eq!(names, vec!["org/proxy", "org/api"]);
    assert!(images.iter().all(|r| r.registry == "ghcr.io"));
    let none = select_pod_images(&pods, "prod", None, None, Some("gcr.io")).unwrap();
    assert!(none.is_empty());
}

#[test]
fn node_and_registry_filters_combine() {
    let pods = cluster();
    let images = select_pod_images(&pods, "prod", Some("node-b"), None, Some("docker.io")).unwrap();
    assert_eq!(images.len(), 1);
    assert_eq!(images[0].pod_name, "db");
    assert_eq!(images[0].image_name, "postgres");
    assert_eq!(images[0].image_version, "16");
}

#[test]
fn pod_name_is_checked_again_on_client() {
    let pods = cluster();
    let images = select_pod_images(&pods, "prod", Some("node-a"), Some("job"), None).unwrap();
    assert_eq!(images.len(), 2);
    assert!(images.iter().all(|r| r.pod_name == "job"));
}

#[test]
fn empty_list_is_not_found() {
    let pods: Vec<PodResource> = Vec::new();
    let err = select_pod_images(&pods, "prod", None, None, None).unwrap_err();
    assert_eq!(err, K8sError::ResourceNotFound("pods in namespace prod".to_string()));
    assert_eq!(err.message(), "Resource not found: pods in namespace prod");
    let err = select_pod_images(&pods, "prod", Some("n1"), Some("p1"), None).unwrap_err();
    assert_eq!(err, K8sError::ResourceNotFound("pod p1 on node n1".to_string()));
}

#[test]
fn pods_without_images_give_empty_success() {
    let pods = vec![pod("idle", "prod", "node-a", &[]), pod("idle2", "prod", "node-b", &[])];
    let images = select_pod_images(&pods, "prod", None, None, None).unwrap();
    assert!(images.is_empty());
}

#[test]
fn not_found_descriptions() {
    assert_eq!(not_found_description("ns", Some("n"), Some("p")), "pod p on node n");
    assert_eq!(not_found_description("ns", Some("n"), None), "pods on node n");
    assert_eq!(not_found_description("ns", None, Some("p")), "pod p");
    assert_eq!(not_found_description("ns", None, None), "pods in namespace ns");
}

#[test]
fn field_selectors() {
    assert_eq!(build_field_selector(Some("n1"), Some("p1")), "spec.nodeName=n1,metadata.name=p1");
    assert_eq!(build_field_selector(Some("n1"), None), "spec.nodeName=n1");
    assert_eq!(build_field_selector(None, Some("p1")), "metadata.name=p1");
    assert_eq!(build_field_selector(None, None), "");
}

#[test]
fn pod_filters() {
    let p = pod("web", "prod", "node-a", &["nginx"]);
    assert!(should_process_pod(&p, None, None));
    assert!(should_process_pod(&p, Some("node-a"), Some("web")));
    assert!(!should_process_pod(&p, Some("node-b"), None));
    assert!(!should_process_pod(&p, None, Some("api")));
    let unscheduled = PodResource { name: None, namespace: None, spec: None, status: None };
    assert!(!should_process_pod(&unscheduled, Some("node-a"), None));
    assert!(!should_process_pod(&unscheduled, None, Some("web")));
}

#[test]
fn error_messages() {
    assert_eq!(K8sError::ConfigError("x".to_string()).message(), "Configuration error: x");
    assert_eq!(K8sError::ConnectionError("y".to_string()).message(), "Connection error: y");
    let api = K8sError::api("forbidden", "Forbidden");
    assert_eq!(api, K8sError::ApiError("forbidden (Forbidden)".to_string()));
    assert_eq!(api.message(), "API error: forbidden (Forbidden)");
}

#[test]
fn columns_follow_filters() {
    assert_eq!(columns_for(false, false, false), Columns { node: true, namespace: false, pod: true });
    assert_eq!(columns_for(true, false, false), Columns { node: false, namespace: true, pod: true });
    assert_eq!(columns_for(false, true, true), Columns { node: true, namespace: true, pod: false });
}
