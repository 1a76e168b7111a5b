//! The command line, as plain values, and which columns a listing shows.
use vstd::prelude::*;

verus! {

/// Format of log output.
#[derive(Clone, Copy, Debug, PartialEq, Eq)]
pub enum LogFormat {
    Plain,
    Structured,
}

/// What `get` retrieves.
#[derive(Clone, Debug, PartialEq, Eq)]
pub enum GetResource {
    /// Container images of running pods.
    Images {
        namespace: String,
        node: Option<String>,
        pod: Option<String>,
        registry: Option<String>,
        all_namespaces: bool,
    },
}

#[derive(Clone, Debug, PartialEq, Eq)]
pub enum Commands {
    Get { resource: GetResource },
}

/// The parsed command line.
#[derive(Clone, Debug, PartialEq, Eq)]
pub struct Args {
    /// How often `-v` was given; each one raises the log detail.
    pub verbose: u8,
    pub log_format: LogFormat,
    pub command: Commands,
}

/// Which optional columns a listing of image records shows.
#[derive(Clone, Copy, Debug, PartialEq, Eq)]
pub struct Columns {
    pub node: bool,
    pub namespace: bool,
    pub pod: bool,
}

/// A column is shown unless a filter fixed its value: the node column
/// without a node filter, the pod column without a pod filter. Namespaces
/// are shown whenever the listing spans them: with all namespaces, or with
/// a node filter.
pub fn columns_for(node_given: bool, pod_given: bool, all_namespaces: bool) -> (r: Columns)
    ensures
        r.node == !node_given,
        r.pod == !pod_given,
        r.namespace == (all_namespaces || node_given),
{
    Columns { node: !node_given, namespace: all_namespaces || node_given, pod: !pod_given }
}

} // verus!
