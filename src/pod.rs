//! The parts of a pod that image extraction reads, and the records that one
//! pod yields: one per container that declares an image.
use vstd::prelude::*;

use crate::image_ref::{
    extract_registry, lemma_registry_never_empty, lemma_version_has_tag, registry_of, split_image, split_of, strip_registry, stripped_of,
};
use crate::text::{after_first, chars_of, find_first, lemma_first_index_bounds};

verus! {

/// A container declared in a pod's spec.
#[derive(Clone, Debug)]
pub struct Container {
    pub name: String,
    pub image: Option<String>,
}

/// What the runtime reports of one started container.
#[derive(Clone, Debug)]
pub struct ContainerStatus {
    pub name: String,
    /// The resolved image, as `<algorithm>:<digest>`.
    pub image_id: String,
}

#[derive(Clone, Debug)]
pub struct PodSpec {
    pub node_name: Option<String>,
    pub containers: Vec<Container>,
}

#[derive(Clone, Debug)]
pub struct PodStatus {
    pub container_statuses: Option<Vec<ContainerStatus>>,
}

/// A pod as the cluster lists it; each part may be absent.
#[derive(Clone, Debug)]
pub struct PodResource {
    pub name: Option<String>,
    pub namespace: Option<String>,
    pub spec: Option<PodSpec>,
    pub status: Option<PodStatus>,
}

/// One container image running in a pod.
#[derive(Clone, Debug, PartialEq, Eq)]
pub struct PodImage {
    /// Name of the pod that holds the container; empty when the pod has none.
    pub pod_name: String,
    /// Node the pod runs on; empty when it is not scheduled.
    pub node_name: String,
    pub namespace: String,
    pub container_name: String,
    /// Repository name, without the registry.
    pub image_name: String,
    /// Tag, `"latest"` when none is given, `tag@digest` with a digest.
    pub image_version: String,
    /// Registry host; never empty.
    pub registry: String,
    /// Digest that the runtime resolved for this container; empty if unknown.
    pub digest: String,
}

/// A record with each field as its characters.
pub struct PodImageView {
    pub pod_name: Seq<char>,
    pub node_name: Seq<char>,
    pub namespace: Seq<char>,
    pub container_name: Seq<char>,
    pub image_name: Seq<char>,
    pub image_version: Seq<char>,
    pub registry: Seq<char>,
    pub digest: Seq<char>,
}

impl View for PodImage {
    type V = PodImageView;

    open spec fn view(&self) -> PodImageView {
        PodImageView {
            pod_name: self.pod_name@,
            node_name: self.node_name@,
            namespace: self.namespace@,
            container_name: self.container_name@,
            image_name: self.image_name@,
            image_version: self.image_version@,
            registry: self.registry@,
            digest: self.digest@,
        }
    }
}

impl PodImage {
    /// A copy of this record, field by field.
    pub fn copied(&self) -> (r: PodImage)
        ensures
            r@ == self@,
    {
        PodImage {
            pod_name: self.pod_name.clone(),
            node_name: self.node_name.clone(),
            namespace: self.namespace.clone(),
            container_name: self.container_name.clone(),
            image_name: self.image_name.clone(),
            image_version: self.image_version.clone(),
            registry: self.registry.clone(),
            digest: self.digest.clone(),
        }
    }
}

/// The records of `v`, field by field.
pub open spec fn views_of(v: Seq<PodImage>) -> Seq<PodImageView> {
    v.map_values(|x: PodImage| x@)
}

pub open spec fn text_or_empty(o: Option<String>) -> Seq<char> {
    match o {
        Some(s) => s@,
        None => Seq::empty(),
    }
}

pub open spec fn node_of(pod: PodResource) -> Seq<char> {
    match pod.spec {
        Some(spec) => text_or_empty(spec.node_name),
        None => Seq::empty(),
    }
}

pub open spec fn containers_of(pod: PodResource) -> Seq<Container> {
    match pod.spec {
        Some(spec) => spec.containers@,
        None => Seq::empty(),
    }
}

pub open spec fn statuses_of(pod: PodResource) -> Seq<ContainerStatus> {
    match pod.status {
        Some(status) => match status.container_statuses {
            Some(v) => v@,
            None => Seq::empty(),
        },
        None => Seq::empty(),
    }
}

/// The first status entry that carries the name `name`.
pub open spec fn first_status(sts: Seq<ContainerStatus>, name: Seq<char>) -> Option<
    ContainerStatus,
>
    decreases sts.len(),
{
    if sts.len() == 0 {
        None
    } else if first_status(sts.drop_last(), name) is Some {
        first_status(sts.drop_last(), name)
    } else if sts.last().name@ == name {
        Some(sts.last())
    } else {
        None
    }
}

/// The digest that the runtime reports for the container named `name`:
/// what follows the first `:` of its image id.
pub open spec fn digest_of(pod: PodResource, name: Seq<char>) -> Seq<char> {
    match first_status(statuses_of(pod), name) {
        Some(st) => after_first(st.image_id@, ':'),
        None => Seq::empty(),
    }
}

pub open spec fn declares_image(c: Container) -> bool {
    c.image is Some && c.image->0@.len() > 0
}

/// The record for container `c` of `pod`.
pub open spec fn record_for(pod: PodResource, c: Container) -> PodImageView {
    let image = text_or_empty(c.image);
    let registry = registry_of(image);
    PodImageView {
        pod_name: text_or_empty(pod.name),
        node_name: node_of(pod),
        namespace: text_or_empty(pod.namespace),
        container_name: c.name@,
        image_name: stripped_of(split_of(image).0, registry),
        image_version: split_of(image).1,
        registry,
        digest: digest_of(pod, c.name@),
    }
}

/// The records of the containers `cs` of `pod`, in order, skipping those
/// that declare no image.
pub open spec fn records_of(pod: PodResource, cs: Seq<Container>) -> Seq<PodImageView>
    decreases cs.len(),
{
    if cs.len() == 0 {
        Seq::empty()
    } else if declares_image(cs.last()) {
        records_of(pod, cs.drop_last()).push(record_for(pod, cs.last()))
    } else {
        records_of(pod, cs.drop_last())
    }
}

/// The records that `pod` yields.
pub open spec fn pod_records(pod: PodResource) -> Seq<PodImageView> {
    records_of(pod, containers_of(pod))
}

/// The records of a pod are its containers that declare an image, in the
/// order in which the spec declares them, each turned into its record: they
/// depend on the pod's contents alone.
pub proof fn lemma_records_follow_declaration_order(pod: PodResource, cs: Seq<Container>)
    ensures
        records_of(pod, cs) == cs.filter(|c: Container| declares_image(c)).map_values(
            |c: Container| record_for(pod, c),
        ),
    decreases cs.len(),
{
    reveal(Seq::filter);
    let keep = |c: Container| declares_image(c);
    let to_record = |c: Container| record_for(pod, c);
    if cs.len() == 0 {
        assert(cs.filter(keep).map_values(to_record) =~= Seq::<PodImageView>::empty());
    } else {
        lemma_records_follow_declaration_order(pod, cs.drop_last());
        let prev = cs.drop_last().filter(keep);
        if declares_image(cs.last()) {
            assert(prev.push(cs.last()).map_values(to_record) =~= prev.map_values(
                to_record,
            ).push(record_for(pod, cs.last())));
        }
    }
}

/// Every record of a pod carries the pod's node.
pub proof fn lemma_records_carry_node(pod: PodResource, cs: Seq<Container>)
    ensures
        forall|i: int|
            0 <= i < records_of(pod, cs).len() ==> #[trigger] records_of(pod, cs)[i].node_name
                == node_of(pod),
    decreases cs.len(),
{
    if cs.len() > 0 {
        lemma_records_carry_node(pod, cs.drop_last());
        let prev = records_of(pod, cs.drop_last());
        assert forall|i: int| 0 <= i < records_of(pod, cs).len() implies #[trigger] records_of(
            pod,
            cs,
        )[i].node_name == node_of(pod) by {
            if i < prev.len() {
                assert(records_of(pod, cs)[i] == prev[i]);
            }
        }
    }
}

/// Every record of a pod names a registry, and its version never starts
/// with `@`.
pub proof fn lemma_records_well_formed(pod: PodResource, cs: Seq<Container>)
    ensures
        forall|i: int|
            0 <= i < records_of(pod, cs).len() ==> {
                let rec = #[trigger] records_of(pod, cs)[i];
                &&& rec.registry.len() > 0
                &&& rec.image_version.len() > 0 ==> rec.image_version[0] != '@'
            },
    decreases cs.len(),
{
    if cs.len() > 0 {
        lemma_records_well_formed(pod, cs.drop_last());
        let prev = records_of(pod, cs.drop_last());
        let image = text_or_empty(cs.last().image);
        lemma_registry_never_empty(image);
        lemma_version_has_tag(image);
        assert forall|i: int| 0 <= i < records_of(pod, cs).len() implies {
            let rec = #[trigger] records_of(pod, cs)[i];
            &&& rec.registry.len() > 0
            &&& rec.image_version.len() > 0 ==> rec.image_version[0] != '@'
        } by {
            if i < prev.len() {
                assert(records_of(pod, cs)[i] == prev[i]);
            }
        }
    }
}

fn text_or_empty_string(o: &Option<String>) -> (r: String)
    ensures
        r@ == text_or_empty(*o),
{
    match o {
        Some(s) => s.clone(),
        None => String::new(),
    }
}

/// The digest that the runtime resolved for the container `container_name`
/// of `pod`: what follows the first `:` of the image id of the first status
/// entry with that name. `None` when there is no such entry, or its id has
/// no `:`.
pub fn extract_container_digest(pod: &PodResource, container_name: &str) -> (r: Option<String>)
    ensures
        r is Some <==> (first_status(statuses_of(*pod), container_name@) is Some && first_status(
            statuses_of(*pod),
            container_name@,
        )->0.image_id@.contains(':')),
        r is Some ==> r->0@ == digest_of(*pod, container_name@),
        r is None ==> digest_of(*pod, container_name@) == Seq::<char>::empty(),
{
    let statuses = match &pod.status {
        Some(status) => match &status.container_statuses {
            Some(v) => v,
            None => {
                return None;
            },
        },
        None => {
            return None;
        },
    };
    let wanted = String::from_str(container_name);
    let mut found: Option<usize> = None;
    let mut i: usize = 0;
    while i < statuses.len()
        invariant
            i <= statuses@.len(),
            statuses@ == statuses_of(*pod),
            wanted@ == container_name@,
            match found {
                Some(k) => k < i && first_status(statuses@.take(i as int), wanted@) == Some(
                    statuses@[k as int],
                ),
                None => first_status(statuses@.take(i as int), wanted@) is None,
            },
        decreases statuses.len() - i,
    {
        assert(statuses@.take(i + 1).drop_last() =~= statuses@.take(i as int));
        if found.is_none() && statuses[i].name == wanted {
            found = Some(i);
        }
        i = i + 1;
    }
    assert(statuses@.take(i as int) =~= statuses@);
    match found {
        None => None,
        Some(k) => {
            let id = &statuses[k].image_id;
            let v = chars_of(id.as_str());
            proof {
                lemma_first_index_bounds(v@, ':');
            }
            match find_first(&v, ':') {
                None => None,
                Some(colon) => {
                    assert(colon < v.len());
                    let digest = String::from_str(id.as_str().substring_char(colon + 1, v.len()));
                    assert(digest@ =~= after_first(id@, ':'));
                    Some(digest)
                },
            }
        },
    }
}

/// The image records of `pod`: one for each container of its spec that
/// declares a non-empty image, in the order of the spec.
pub fn process_pod(pod: &PodResource) -> (r: Vec<PodImage>)
    ensures
        views_of(r@) == pod_records(*pod),
        forall|i: int|
            0 <= i < r@.len() ==> {
                let rec = #[trigger] r@[i];
                &&& rec.registry@.len() > 0
                &&& rec.image_version@.len() > 0 ==> rec.image_version@[0] != '@'
            },
{
    proof {
        lemma_records_well_formed(*pod, containers_of(*pod));
    }
    let mut out: Vec<PodImage> = Vec::new();
    let spec = match &pod.spec {
        Some(spec) => spec,
        None => {
            assert(views_of(out@) =~= pod_records(*pod));
            return out;
        },
    };
    let pod_name = text_or_empty_string(&pod.name);
    let namespace = text_or_empty_string(&pod.namespace);
    let node_name = text_or_empty_string(&spec.node_name);
    let containers = &spec.containers;
    let mut i: usize = 0;
    while i < containers.len()
        invariant
            i <= containers@.len(),
            containers@ == containers_of(*pod),
            pod_name@ == text_or_empty(pod.name),
            namespace@ == text_or_empty(pod.namespace),
            node_name@ == node_of(*pod),
            views_of(out@) == records_of(*pod, containers@.take(i as int)),
        decreases containers.len() - i,
    {
        let c = &containers[i];
        assert(containers@.take(i + 1).drop_last() =~= containers@.take(i as int));
        assert(containers@.take(i + 1).last() == *c);
        if let Some(image) = &c.image {
            if image.as_str().unicode_len() > 0 {
                let registry = extract_registry(image.as_str());
                let (full_name, image_version) = split_image(image.as_str());
                let image_name = strip_registry(full_name.as_str(), registry.as_str());
                let digest = match extract_container_digest(pod, c.name.as_str()) {
                    Some(d) => d,
                    None => String::new(),
                };
                let record = PodImage {
                    pod_name: pod_name.clone(),
                    node_name: node_name.clone(),
                    namespace: namespace.clone(),
                    container_name: c.name.clone(),
                    image_name,
                    image_version,
                    registry,
                    digest,
                };
                assert(record.digest@ == digest_of(*pod, c.name@));
                assert(record.image_name@ == record_for(*pod, *c).image_name);
                assert(record@ == record_for(*pod, *c));
                let ghost prev = out@;
                out.push(record);
                assert(views_of(out@) =~= views_of(prev).push(record@));
            }
        }
        i = i + 1;
    }
    assert(containers@.take(i as int) =~= containers@);
    assert forall|j: int| 0 <= j < out@.len() implies {
        let rec = #[trigger] out@[j];
        &&& rec.registry@.len() > 0
        &&& rec.image_version@.len() > 0 ==> rec.image_version@[0] != '@'
    } by {
        assert(views_of(out@)[j] == out@[j]@);
        assert(out@[j]@ == records_of(*pod, containers_of(*pod))[j]);
    }
    out
}

} // verus!
