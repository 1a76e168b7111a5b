use kelper::{extract_registry, split_image, strip_registry};

fn pair(a: &str, b: &str) -> (String, String) {
    (a.to_string(), b.to_string())
}

#[test]
fn single_segment_uses_default_registry() {
    for image in ["nginx", "ubuntu:22.04", "app@sha256:abcd", "my.host:5000", ""] {
        assert_eq!(extract_registry(image), "docker.io", "{}", image);
    }
}

#[test]
fn namespaced_docker_hub_name_uses_default_registry() {
    assert_eq!(extract_registry("library/ubuntu"), "docker.io");
    assert_eq!(extract_registry("bitnami/redis:7.2"), "docker.io");
}

#[test]
fn registry_host_is_recognised() {
    assert_eq!(extract_registry("myregistry.io/app"), "myregistry.io");
    assert_eq!(extract_registry("localhost:5000/app"), "localhost:5000");
    assert_eq!(extract_registry("192.168.1.1:5000/app"), "192.168.1.1:5000");
    assert_eq!(extract_registry("ghcr.io/org/app"), "ghcr.io");
}

#[test]
fn loopback_hosts_are_registries() {
    assert_eq!(extract_registry("localhost/team/app"), "localhost");
    assert_eq!(extract_registry("127.0.0.1:5000/team/app"), "127.0.0.1:5000");
    assert_eq!(extract_registry("0.0.0.0/a/b"), "0.0.0.0");
}

#[test]
fn ipv4_hosts_need_four_byte_octets() {
    assert_eq!(extract_registry("10.0.0.1/team/app"), "10.0.0.1");
    assert_eq!(extract_registry("10.0.0.+1/team/app"), "10.0.0.+1");
    // not an address, but the dot still makes it a host
    assert_eq!(extract_registry("10.0.0.256/team/app"), "10.0.0.256");
}

#[test]
fn known_registries_match_by_suffix() {
    assert_eq!(
        extract_registry("123456789.dkr.ecr.us-east-1.amazonaws.com/team/app"),
        "123456789.dkr.ecr.us-east-1.amazonaws.com"
    );
    assert_eq!(extract_registry("quay.io/team/app:v1"), "quay.io");
}

#[test]
fn plain_first_segment_of_three_is_default() {
    assert_eq!(extract_registry("team/group/app"), "docker.io");
}

#[test]
fn split_plain_name() {
    assert_eq!(split_image("nginx"), pair("nginx", "latest"));
}

#[test]
fn split_name_with_tag() {
    assert_eq!(split_image("nginx:1.21"), pair("nginx", "1.21"));
}

#[test]
fn split_port_is_not_a_tag() {
    assert_eq!(split_image("registry:5000/app"), pair("registry:5000/app", "latest"));
}

#[test]
fn split_port_and_tag() {
    assert_eq!(split_image("registry:5000/app:v2"), pair("registry:5000/app", "v2"));
}

#[test]
fn split_digest_without_tag() {
    assert_eq!(split_image("app@sha256:abcd"), pair("app", "latest@sha256:abcd"));
}

#[test]
fn split_digest_with_tag() {
    assert_eq!(split_image("app:v1@sha256:abcd"), pair("app", "v1@sha256:abcd"));
}

#[test]
fn split_digest_with_port_and_no_tag() {
    assert_eq!(
        split_image("registry:5000/app@sha256:ff"),
        pair("registry:5000/app", "latest@sha256:ff")
    );
}

#[test]
fn split_colon_without_slash_is_a_tag() {
    assert_eq!(split_image(":x"), pair("", "x"));
    assert_eq!(split_image(":x@d"), pair("", "x@d"));
}

#[test]
fn split_empty_tag_before_digest_is_latest() {
    assert_eq!(split_image("app:@sha256:x"), pair("app", "latest@sha256:x"));
    assert_eq!(split_image("registry:5000/app:@d"), pair("registry:5000/app", "latest@d"));
}

#[test]
fn split_empty_tag_without_digest_is_kept() {
    assert_eq!(split_image("nginx:"), pair("nginx", ""));
    assert_eq!(split_image("registry:5000/app:"), pair("registry:5000/app", ""));
}

#[test]
fn strip_takes_off_registry_and_slash() {
    assert_eq!(strip_registry("ghcr.io/org/app", "ghcr.io"), "org/app");
    assert_eq!(strip_registry("library/ubuntu", "docker.io"), "library/ubuntu");
    assert_eq!(strip_registry("ghcr.io", "ghcr.io"), "ghcr.io");
    assert_eq!(strip_registry("ghcr.iox/app", "ghcr.io"), "ghcr.iox/app");
}

#[test]
fn explicit_default_registry_is_kept_and_stripped() {
    assert_eq!(extract_registry("docker.io/library/nginx:1.25"), "docker.io");
    let (name, version) = split_image("docker.io/library/nginx:1.25");
    assert_eq!(strip_registry(&name, "docker.io"), "library/nginx");
    assert_eq!(version, "1.25");
}

#[test]
fn registry_is_never_empty() {
    for image in ["/app", "//app", "a//b", "", "/", "x/y/z"] {
        assert!(!extract_registry(image).is_empty(), "{}", image);
    }
}
