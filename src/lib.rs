//! Inventory of the container images that run in a Kubernetes cluster:
//! interpretation of image references, extraction of one record per
//! container from a pod, and the filtering of a pod query.
pub mod cli;
pub mod image_ref;
pub mod pod;
pub mod query;
pub mod text;

pub use cli::{columns_for, Args, Columns, Commands, GetResource, LogFormat};
pub use image_ref::{extract_registry, split_image, strip_registry};
pub use pod::{
    extract_container_digest, process_pod, Container, ContainerStatus, PodImage, PodResource,
    PodSpec, PodStatus,
};
pub use query::{
    build_field_selector, not_found_description, plan_query, select_pod_images,
    should_process_pod, K8sError, ListScope, PodQuery,
};
