//! Planning a pod query and turning the listed pods into the records that
//! the caller asked for.
use vstd::prelude::*;

use crate::pod::{
    containers_of, lemma_records_carry_node, pod_records, process_pod, views_of, PodImage,
    PodImageView, PodResource,
};

verus! {

/// Errors of a query against the cluster.
#[derive(Clone, Debug, PartialEq, Eq)]
pub enum K8sError {
    /// No usable cluster configuration.
    ConfigError(String),
    /// The cluster cannot be reached.
    ConnectionError(String),
    /// The cluster's API answered with an error.
    ApiError(String),
    /// The query matched no pods.
    ResourceNotFound(String),
}

pub open spec fn error_text(e: K8sError) -> Seq<char> {
    match e {
        K8sError::ConfigError(d) => "Configuration error: "@ + d@,
        K8sError::ConnectionError(d) => "Connection error: "@ + d@,
        K8sError::ApiError(d) => "API error: "@ + d@,
        K8sError::ResourceNotFound(d) => "Resource not found: "@ + d@,
    }
}

impl K8sError {
    /// The message shown to users: the kind of error, then its detail.
    pub fn message(&self) -> (r: String)
        ensures
            r@ == error_text(*self),
    {
        let (prefix, detail) = match self {
            K8sError::ConfigError(d) => (String::from_str("Configuration error: "), d),
            K8sError::ConnectionError(d) => (String::from_str("Connection error: "), d),
            K8sError::ApiError(d) => (String::from_str("API error: "), d),
            K8sError::ResourceNotFound(d) => (String::from_str("Resource not found: "), d),
        };
        let mut r = prefix;
        r.append(detail.as_str());
        r
    }

    /// An API error that carries the API's message and its reason.
    pub fn api(message: &str, reason: &str) -> (r: K8sError)
        ensures
            r matches K8sError::ApiError(d) && d@ == message@ + " ("@ + reason@ + ")"@,
    {
        let mut d = String::from_str(message);
        d.append(" (");
        d.append(reason);
        d.append(")");
        K8sError::ApiError(d)
    }
}

/// Where pods are listed.
#[derive(Clone, Debug, PartialEq, Eq)]
pub enum ListScope {
    AllNamespaces,
    Namespace(String),
}

/// A list request for the pod lister: its scope and its field selector
/// (empty when nothing is selected on the server).
#[derive(Clone, Debug)]
pub struct PodQuery {
    pub scope: ListScope,
    pub field_selector: String,
}

pub open spec fn opt_text(o: Option<&str>) -> Option<Seq<char>> {
    match o {
        Some(s) => Some(s@),
        None => None,
    }
}

/// The field selector for the node and pod-name filters, joined by a comma.
pub open spec fn selector_of(node: Option<Seq<char>>, pod: Option<Seq<char>>) -> Seq<char> {
    match (node, pod) {
        (Some(n), Some(p)) => "spec.nodeName="@ + n + ","@ + "metadata.name="@ + p,
        (Some(n), None) => "spec.nodeName="@ + n,
        (None, Some(p)) => "metadata.name="@ + p,
        (None, None) => Seq::empty(),
    }
}

/// Lists span all namespaces when asked, and whenever a node is named: a
/// node's pods belong to any namespace.
pub open spec fn lists_all_namespaces(node: Option<Seq<char>>, all_namespaces: bool) -> bool {
    all_namespaces || node is Some
}

/// The server-side field selector for the given filters.
pub fn build_field_selector(node_name: Option<&str>, pod_name: Option<&str>) -> (r: String)
    ensures
        r@ == selector_of(opt_text(node_name), opt_text(pod_name)),
{
    let mut r = String::new();
    if let Some(node) = node_name {
        r.append("spec.nodeName=");
        r.append(node);
    }
    if let Some(name) = pod_name {
        if node_name.is_some() {
            r.append(",");
        }
        r.append("metadata.name=");
        r.append(name);
    }
    proof {
        match (node_name, pod_name) {
            (Some(n), Some(p)) => {
                assert(r@ =~= selector_of(opt_text(node_name), opt_text(pod_name)));
            },
            (Some(n), None) => {
                assert(r@ =~= selector_of(opt_text(node_name), opt_text(pod_name)));
            },
            (None, Some(p)) => {
                assert(r@ =~= selector_of(opt_text(node_name), opt_text(pod_name)));
            },
            (None, None) => {},
        }
    }
    r
}

/// The list request for the given filters.
pub fn plan_query(
    namespace: &str,
    node_name: Option<&str>,
    pod_name: Option<&str>,
    all_namespaces: bool,
) -> (r: PodQuery)
    ensures
        r.field_selector@ == selector_of(opt_text(node_name), opt_text(pod_name)),
        lists_all_namespaces(opt_text(node_name), all_namespaces) ==> r.scope
            == ListScope::AllNamespaces,
        !lists_all_namespaces(opt_text(node_name), all_namespaces) ==> (r.scope matches ListScope::Namespace(ns) && ns@ == namespace@),
{
    let scope = if all_namespaces || node_name.is_some() {
        ListScope::AllNamespaces
    } else {
        ListScope::Namespace(String::from_str(namespace))
    };
    PodQuery { scope, field_selector: build_field_selector(node_name, pod_name) }
}

/// A pod passes the filters when its name, and its node, equal those asked
/// for, where they are asked for.
pub open spec fn pod_selected(p: PodResource, node: Option<Seq<char>>, name: Option<Seq<char>>) -> bool {
    &&& (name matches Some(n) ==> p.name is Some && p.name->0@ == n)
    &&& (node matches Some(n) ==> p.spec is Some && p.spec->0.node_name is Some
        && p.spec->0.node_name->0@ == n)
}

/// Whether `pod` passes the pod-name and node filters.
pub fn should_process_pod(pod: &PodResource, node_name: Option<&str>, pod_name: Option<&str>) -> (r:
    bool)
    ensures
        r == pod_selected(*pod, opt_text(node_name), opt_text(pod_name)),
{
    if let Some(name) = pod_name {
        match &pod.name {
            Some(actual) => {
                if *actual != String::from_str(name) {
                    return false;
                }
            },
            None => {
                return false;
            },
        }
    }
    if let Some(node) = node_name {
        match &pod.spec {
            Some(spec) => match &spec.node_name {
                Some(actual) => {
                    if *actual != String::from_str(node) {
                        return false;
                    }
                },
                None => {
                    return false;
                },
            },
            None => {
                return false;
            },
        }
    }
    true
}

/// The records of the pods that pass the filters, in list order.
pub open spec fn selected_records(
    pods: Seq<PodResource>,
    node: Option<Seq<char>>,
    name: Option<Seq<char>>,
) -> Seq<PodImageView>
    decreases pods.len(),
{
    if pods.len() == 0 {
        Seq::empty()
    } else if pod_selected(pods.last(), node, name) {
        selected_records(pods.drop_last(), node, name) + pod_records(pods.last())
    } else {
        selected_records(pods.drop_last(), node, name)
    }
}

/// The records of `rs` from the registry `registry`, in order; all of them
/// when no registry is asked for.
pub open spec fn with_registry(rs: Seq<PodImageView>, registry: Option<Seq<char>>) -> Seq<
    PodImageView,
>
    decreases rs.len(),
{
    match registry {
        None => rs,
        Some(reg) => if rs.len() == 0 {
            Seq::empty()
        } else if rs.last().registry == reg {
            with_registry(rs.drop_last(), registry).push(rs.last())
        } else {
            with_registry(rs.drop_last(), registry)
        },
    }
}

/// The records that a query yields from the pods that were listed.
pub open spec fn query_records(
    pods: Seq<PodResource>,
    node: Option<Seq<char>>,
    name: Option<Seq<char>>,
    registry: Option<Seq<char>>,
) -> Seq<PodImageView> {
    with_registry(selected_records(pods, node, name), registry)
}

proof fn lemma_selected_records_on_node(
    pods: Seq<PodResource>,
    node: Seq<char>,
    name: Option<Seq<char>>,
)
    ensures
        forall|i: int|
            0 <= i < selected_records(pods, Some(node), name).len() ==> (#[trigger] selected_records(
                pods,
                Some(node),
                name,
            )[i]).node_name == node,
    decreases pods.len(),
{
    if pods.len() > 0 {
        lemma_selected_records_on_node(pods.drop_last(), node, name);
        lemma_records_carry_node(pods.last(), containers_of(pods.last()));
        let prev = selected_records(pods.drop_last(), Some(node), name);
        let all = selected_records(pods, Some(node), name);
        assert forall|i: int| 0 <= i < all.len() implies (#[trigger] all[i]).node_name
            == node by {
            if i < prev.len() {
                assert(all[i] == prev[i]);
            } else {
                let own = pod_records(pods.last());
                assert(all[i] == own[i - prev.len()]);
            }
        }
    }
}

proof fn lemma_with_registry_keeps_node(
    rs: Seq<PodImageView>,
    registry: Option<Seq<char>>,
    node: Seq<char>,
)
    requires
        forall|i: int| 0 <= i < rs.len() ==> (#[trigger] rs[i]).node_name == node,
    ensures
        forall|i: int|
            0 <= i < with_registry(rs, registry).len() ==> (#[trigger] with_registry(
                rs,
                registry,
            )[i]).node_name == node,
    decreases rs.len(),
{
    if registry is Some && rs.len() > 0 {
        assert forall|i: int| 0 <= i < rs.drop_last().len() implies (
        #[trigger] rs.drop_last()[i]).node_name == node by {
            assert(rs.drop_last()[i] == rs[i]);
        }
        lemma_with_registry_keeps_node(rs.drop_last(), registry, node);
        let prev = with_registry(rs.drop_last(), registry);
        let all = with_registry(rs, registry);
        assert forall|i: int| 0 <= i < all.len() implies (#[trigger] all[i]).node_name
            == node by {
            if i < prev.len() {
                assert(all[i] == prev[i]);
            } else {
                assert(all[i] == rs[rs.len() - 1]);
            }
        }
    }
}

/// With a node filter, every record that a query yields runs on that node,
/// whatever the other filters and the namespace scope.
pub proof fn lemma_node_filter_holds(
    pods: Seq<PodResource>,
    node: Seq<char>,
    name: Option<Seq<char>>,
    registry: Option<Seq<char>>,
)
    ensures
        forall|i: int|
            0 <= i < query_records(pods, Some(node), name, registry).len() ==> (
            #[trigger] query_records(pods, Some(node), name, registry)[i]).node_name == node,
{
    lemma_selected_records_on_node(pods, node, name);
    lemma_with_registry_keeps_node(selected_records(pods, Some(node), name), registry, node);
}

proof fn lemma_with_registry_matches(rs: Seq<PodImageView>, registry: Seq<char>)
    ensures
        forall|i: int|
            0 <= i < with_registry(rs, Some(registry)).len() ==> (#[trigger] with_registry(
                rs,
                Some(registry),
            )[i]).registry == registry,
    decreases rs.len(),
{
    if rs.len() > 0 {
        lemma_with_registry_matches(rs.drop_last(), registry);
        let prev = with_registry(rs.drop_last(), Some(registry));
        let all = with_registry(rs, Some(registry));
        assert forall|i: int| 0 <= i < all.len() implies (#[trigger] all[i]).registry
            == registry by {
            if i < prev.len() {
                assert(all[i] == prev[i]);
            }
        }
    }
}

/// With a registry filter, every record that a query yields comes from that
/// registry.
pub proof fn lemma_registry_filter_holds(
    pods: Seq<PodResource>,
    node: Option<Seq<char>>,
    name: Option<Seq<char>>,
    registry: Seq<char>,
)
    ensures
        forall|i: int|
            0 <= i < query_records(pods, node, name, Some(registry)).len() ==> (
            #[trigger] query_records(pods, node, name, Some(registry))[i]).registry == registry,
{
    lemma_with_registry_matches(selected_records(pods, node, name), registry);
}

/// When no listed pod declares an image, a query yields no records (and,
/// the list being non-empty, no error either).
pub proof fn lemma_no_images_no_records(
    pods: Seq<PodResource>,
    node: Option<Seq<char>>,
    name: Option<Seq<char>>,
    registry: Option<Seq<char>>,
)
    requires
        forall|i: int| 0 <= i < pods.len() ==> pod_records(#[trigger] pods[i]).len() == 0,
    ensures
        query_records(pods, node, name, registry).len() == 0,
    decreases pods.len(),
{
    if pods.len() > 0 {
        assert(pods.drop_last().len() < pods.len());
        assert forall|i: int| 0 <= i < pods.drop_last().len() implies pod_records(
            #[trigger] pods.drop_last()[i],
        ).len() == 0 by {
            assert(pods.drop_last()[i] == pods[i]);
        }
        lemma_no_images_no_records(pods.drop_last(), node, name, None);
        assert(pod_records(pods[pods.len() - 1]).len() == 0);
    }
    lemma_with_registry_shrinks(selected_records(pods, node, name), registry);
}

proof fn lemma_with_registry_shrinks(rs: Seq<PodImageView>, registry: Option<Seq<char>>)
    ensures
        with_registry(rs, registry).len() <= rs.len(),
    decreases rs.len(),
{
    if registry is Some && rs.len() > 0 {
        lemma_with_registry_shrinks(rs.drop_last(), registry);
    }
}

/// What was not found, when a list came back empty.
pub open spec fn not_found_text(
    namespace: Seq<char>,
    node: Option<Seq<char>>,
    name: Option<Seq<char>>,
) -> Seq<char> {
    match (node, name) {
        (Some(n), Some(p)) => "pod "@ + p + " on node "@ + n,
        (Some(n), None) => "pods on node "@ + n,
        (None, Some(p)) => "pod "@ + p,
        (None, None) => "pods in namespace "@ + namespace,
    }
}

/// A description of what an empty list did not find.
pub fn not_found_description(namespace: &str, node_name: Option<&str>, pod_name: Option<&str>) -> (r:
    String)
    ensures
        r@ == not_found_text(namespace@, opt_text(node_name), opt_text(pod_name)),
{
    match (node_name, pod_name) {
        (Some(node), Some(pod)) => {
            let mut r = String::from_str("pod ");
            r.append(pod);
            r.append(" on node ");
            r.append(node);
            r
        },
        (Some(node), None) => {
            let mut r = String::from_str("pods on node ");
            r.append(node);
            r
        },
        (None, Some(pod)) => {
            let mut r = String::from_str("pod ");
            r.append(pod);
            r
        },
        (None, None) => {
            let mut r = String::from_str("pods in namespace ");
            r.append(namespace);
            r
        },
    }
}

/// The image records that a query yields from the pods that the lister
/// returned: an error when it returned none; otherwise the records of the
/// pods that pass the pod-name and node filters, in list order and then in
/// container order, keeping only those from `registry_filter` when given.
pub fn select_pod_images(
    pods: &Vec<PodResource>,
    namespace: &str,
    node_name: Option<&str>,
    pod_name: Option<&str>,
    registry_filter: Option<&str>,
) -> (r: Result<Vec<PodImage>, K8sError>)
    ensures
        pods@.len() == 0 <==> r is Err,
        r matches Err(e) ==> (e matches K8sError::ResourceNotFound(d) && d@ == not_found_text(
            namespace@,
            opt_text(node_name),
            opt_text(pod_name),
        )),
        r matches Ok(v) ==> views_of(v@) == query_records(
            pods@,
            opt_text(node_name),
            opt_text(pod_name),
            opt_text(registry_filter),
        ),
{
    if pods.len() == 0 {
        return Err(K8sError::ResourceNotFound(not_found_description(namespace, node_name, pod_name)));
    }
    let ghost node = opt_text(node_name);
    let ghost name = opt_text(pod_name);
    let mut all: Vec<PodImage> = Vec::new();
    let mut i: usize = 0;
    while i < pods.len()
        invariant
            i <= pods@.len(),
            node == opt_text(node_name),
            name == opt_text(pod_name),
            views_of(all@) == selected_records(pods@.take(i as int), node, name),
        decreases pods.len() - i,
    {
        let pod = &pods[i];
        assert(pods@.take(i + 1).drop_last() =~= pods@.take(i as int));
        assert(pods@.take(i + 1).last() == *pod);
        if should_process_pod(pod, node_name, pod_name) {
            let mut images = process_pod(pod);
            let ghost prev = all@;
            let ghost added = images@;
            all.append(&mut images);
            assert(views_of(all@) =~= views_of(prev) + views_of(added));
        }
        i = i + 1;
    }
    assert(pods@.take(i as int) =~= pods@);
    match registry_filter {
        None => Ok(all),
        Some(reg) => {
            let wanted = String::from_str(reg);
            let mut kept: Vec<PodImage> = Vec::new();
            let mut j: usize = 0;
            while j < all.len()
                invariant
                    j <= all@.len(),
                    wanted@ == reg@,
                    views_of(kept@) == with_registry(views_of(all@.take(j as int)), Some(reg@)),
                decreases all.len() - j,
            {
                assert(views_of(all@.take(j + 1)).drop_last() =~= views_of(all@.take(j as int)));
                assert(views_of(all@.take(j + 1)).last() == all@[j as int]@);
                if all[j].registry == wanted {
                    let ghost prev = kept@;
                    kept.push(all[j].copied());
                    assert(views_of(kept@) =~= views_of(prev).push(all@[j as int]@));
                }
                j = j + 1;
            }
            assert(all@.take(j as int) =~= all@);
            Ok(kept)
        },
    }
}

} // verus!
