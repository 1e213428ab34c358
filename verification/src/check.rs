//! The exposure detection itself.
//!
//! Given the set of services a webhook configuration references, the
//! detector queries, namespace by namespace, the Ingresses and the
//! `NodePort`/`LoadBalancer` Services of the cluster, and intersects the
//! identities they publish with the webhook targets of that namespace. The
//! union over all namespaces is the exposed set; a query failure in any
//! namespace aborts the whole detection, so that a partial cluster view is
//! never read as "nothing is exposed".

use crate::resources::{
    Ingress, MutatingWebhookConfiguration, Service, ValidatingWebhookConfiguration,
};
use crate::service_details::{
    ServiceDetails, ServiceIdentity, id_set, ids, insert_service, lemma_push_to_set,
    contains_service,
};
use crate::service_finder::{
    ServiceFinder, ingress_identities, mutating_configuration_identities, service_identities,
    validating_configuration_identities,
};
use vstd::prelude::*;

verus! {

/// A failed cluster query, carrying the collaborator's message.
#[derive(Debug)]
pub struct QueryError {
    pub message: String,
}

impl QueryError {
    pub fn new(message: &str) -> (r: Self)
        ensures
            r.message@ == message@,
    {
        QueryError { message: message.to_owned() }
    }
}

/// The capability to list the resources of one namespace.
///
/// The live cluster answers these queries, so nothing is promised of the
/// results: every caller states what holds whatever comes back. Production
/// wiring and test fixtures implement this trait at composition time.
pub trait ClusterResourceReader {
    /// All Ingress resources of the namespace, or the query's error.
    fn list_ingresses(&self, namespace: &str) -> Result<Vec<Ingress>, QueryError>;

    /// All Service resources of the namespace, or the query's error.
    fn list_services(&self, namespace: &str) -> Result<Vec<Service>, QueryError>;
}

/// The identities published by a sequence of Ingresses: the union of each
/// Ingress's referenced backends.
pub open spec fn ingress_candidates(ings: Seq<Ingress>) -> Set<ServiceIdentity>
    decreases ings.len(),
{
    if ings.len() == 0 {
        Set::empty()
    } else {
        ingress_candidates(ings.drop_last()).union(ingress_identities(ings.last()))
    }
}

/// Whether a Service is published outside the cluster: its type is exactly
/// `NodePort` or `LoadBalancer`. Any other type — including an absent type,
/// which defaults to `ClusterIP` semantics — is not published.
pub open spec fn spec_is_published(s: Service) -> bool {
    match s.spec {
        Some(sp) => match sp.type_ {
            Some(t) => t@ == "NodePort"@ || t@ == "LoadBalancer"@,
            None => false,
        },
        None => false,
    }
}

/// The identities published by the `NodePort`/`LoadBalancer` Services of a
/// sequence of Services: one identity per declared port of each published
/// Service.
pub open spec fn service_candidates(svcs: Seq<Service>) -> Set<ServiceIdentity>
    decreases svcs.len(),
{
    if svcs.len() == 0 {
        Set::empty()
    } else {
        service_candidates(svcs.drop_last()).union(
            if spec_is_published(svcs.last()) {
                service_identities(svcs.last())
            } else {
                Set::empty()
            },
        )
    }
}

/// The exposed identities of one namespace: the webhook targets that an
/// Ingress references or a published Service declares.
pub open spec fn spec_exposed_in_namespace(
    ings: Seq<Ingress>,
    svcs: Seq<Service>,
    targets: Set<ServiceIdentity>,
) -> Set<ServiceIdentity> {
    ingress_candidates(ings).intersect(targets).union(service_candidates(svcs).intersect(targets))
}

/// The namespaces of a sequence of service-port pairings, in order of first
/// occurrence, with repetitions.
pub open spec fn target_namespaces(v: Seq<ServiceDetails>) -> Seq<Seq<char>> {
    v.map_values(|s: ServiceDetails| s.namespace@)
}

/// The views of a sequence of strings.
pub open spec fn namespace_views(v: Seq<String>) -> Seq<Seq<char>> {
    v.map_values(|s: String| s@)
}

/// The members of `s` lying in the namespace `ns`.
pub open spec fn in_namespace(s: Set<ServiceIdentity>, ns: Seq<char>) -> Set<ServiceIdentity> {
    s.filter(|id: ServiceIdentity| id.namespace == ns)
}

proof fn lemma_ingress_candidates_push(s: Seq<Ingress>, x: Ingress)
    ensures
        ingress_candidates(s.push(x)) == ingress_candidates(s).union(ingress_identities(x)),
{
    assert(s.push(x).drop_last() =~= s);
    assert(s.push(x).last() == x);
}

proof fn lemma_service_candidates_push(s: Seq<Service>, x: Service)
    ensures
        service_candidates(s.push(x)) == service_candidates(s).union(
            if spec_is_published(x) {
                service_identities(x)
            } else {
                Set::<ServiceIdentity>::empty()
            },
        ),
{
    assert(s.push(x).drop_last() =~= s);
    assert(s.push(x).last() == x);
}

/// Whether this Service's type is exactly `NodePort` or `LoadBalancer`.
pub fn is_published(s: &Service) -> (b: bool)
    ensures
        b == spec_is_published(*s),
{
    match &s.spec {
        Some(sp) => match &sp.type_ {
            Some(t) => {
                let node_port: String = "NodePort".to_owned();
                let load_balancer: String = "LoadBalancer".to_owned();
                *t == node_port || *t == load_balancer
            },
            None => false,
        },
        None => false,
    }
}

/// Collects the identities every Ingress of `ingresses` references, one
/// entry per identity.
#[verifier::loop_isolation(false)]
fn collect_ingress_candidates(ingresses: &Vec<Ingress>) -> (r: Vec<ServiceDetails>)
    ensures
        ids(r@).no_duplicates(),
        id_set(r@) == ingress_candidates(ingresses@),
{
    let mut out: Vec<ServiceDetails> = Vec::new();
    proof {
        assert(ingresses@.take(0) =~= Seq::<Ingress>::empty());
        assert(id_set(out@) =~= ingress_candidates(ingresses@.take(0)));
    }
    let mut i: usize = 0;
    while i < ingresses.len()
        invariant
            i <= ingresses@.len(),
            ids(out@).no_duplicates(),
            id_set(out@) == ingress_candidates(ingresses@.take(i as int)),
        decreases ingresses@.len() - i,
    {
        let ghost prev = ingress_candidates(ingresses@.take(i as int));
        let ing = &ingresses[i];
        let found = ing.get_services();
        proof {
            assert(found@.take(0) =~= Seq::<ServiceDetails>::empty());
            assert(id_set(out@) =~= prev.union(id_set(found@.take(0))));
        }
        let mut j: usize = 0;
        while j < found.len()
            invariant
                j <= found@.len(),
                ids(out@).no_duplicates(),
                id_set(out@) == prev.union(id_set(found@.take(j as int))),
            decreases found@.len() - j,
        {
            let d = found[j].duplicate();
            insert_service(&mut out, d);
            proof {
                assert(ids(found@.take(j as int + 1)) =~= ids(found@.take(j as int)).push(
                    found@[j as int]@,
                ));
                lemma_push_to_set(ids(found@.take(j as int)), found@[j as int]@);
                assert(prev.union(id_set(found@.take(j as int)).insert(found@[j as int]@))
                    =~= prev.union(id_set(found@.take(j as int))).insert(found@[j as int]@));
            }
            j += 1;
        }
        proof {
            assert(found@.take(found@.len() as int) =~= found@);
            assert(ingresses@.take(i as int + 1) =~= ingresses@.take(i as int).push(
                ingresses@[i as int],
            ));
            lemma_ingress_candidates_push(ingresses@.take(i as int), ingresses@[i as int]);
        }
        i += 1;
    }
    proof {
        assert(ingresses@.take(ingresses@.len() as int) =~= ingresses@);
    }
    out
}

/// Collects the identities declared by the published (`NodePort` or
/// `LoadBalancer`) Services of `services`, one entry per identity.
#[verifier::loop_isolation(false)]
fn collect_published_candidates(services: &Vec<Service>) -> (r: Vec<ServiceDetails>)
    ensures
        ids(r@).no_duplicates(),
        id_set(r@) == service_candidates(services@),
{
    let mut out: Vec<ServiceDetails> = Vec::new();
    proof {
        assert(services@.take(0) =~= Seq::<Service>::empty());
        assert(id_set(out@) =~= service_candidates(services@.take(0)));
    }
    let mut i: usize = 0;
    while i < services.len()
        invariant
            i <= services@.len(),
            ids(out@).no_duplicates(),
            id_set(out@) == service_candidates(services@.take(i as int)),
        decreases services@.len() - i,
    {
        let ghost prev = service_candidates(services@.take(i as int));
        let service = &services[i];
        if is_published(service) {
            let found = service.get_services();
            proof {
                assert(found@.take(0) =~= Seq::<ServiceDetails>::empty());
                assert(id_set(out@) =~= prev.union(id_set(found@.take(0))));
            }
            let mut j: usize = 0;
            while j < found.len()
                invariant
                    j <= found@.len(),
                    ids(out@).no_duplicates(),
                    id_set(out@) == prev.union(id_set(found@.take(j as int))),
                decreases found@.len() - j,
            {
                let d = found[j].duplicate();
                insert_service(&mut out, d);
                proof {
                    assert(ids(found@.take(j as int + 1)) =~= ids(found@.take(j as int)).push(
                        found@[j as int]@,
                    ));
                    lemma_push_to_set(ids(found@.take(j as int)), found@[j as int]@);
                    assert(prev.union(id_set(found@.take(j as int)).insert(found@[j as int]@))
                        =~= prev.union(id_set(found@.take(j as int))).insert(found@[j as int]@));
                }
                j += 1;
            }
            proof {
                assert(found@.take(found@.len() as int) =~= found@);
            }
        } else {
            proof {
                assert(id_set(out@) =~= prev.union(Set::<ServiceIdentity>::empty()));
            }
        }
        proof {
            assert(services@.take(i as int + 1) =~= services@.take(i as int).push(
                services@[i as int],
            ));
            lemma_service_candidates_push(services@.take(i as int), services@[i as int]);
        }
        i += 1;
    }
    proof {
        assert(services@.take(services@.len() as int) =~= services@);
    }
    out
}

/// The candidates that are also webhook targets: exact intersection on
/// namespace, name and port.
#[verifier::loop_isolation(false)]
pub fn intersect_services(
    candidates: &Vec<ServiceDetails>,
    webhook_services: &Vec<ServiceDetails>,
) -> (r: Vec<ServiceDetails>)
    ensures
        ids(r@).no_duplicates(),
        id_set(r@) == id_set(candidates@).intersect(id_set(webhook_services@)),
{
    let ghost targets = id_set(webhook_services@);
    let mut out: Vec<ServiceDetails> = Vec::new();
    proof {
        assert(id_set(out@) =~= id_set(candidates@.take(0)).intersect(targets));
    }
    let mut i: usize = 0;
    while i < candidates.len()
        invariant
            i <= candidates@.len(),
            ids(out@).no_duplicates(),
            id_set(out@) == id_set(candidates@.take(i as int)).intersect(targets),
        decreases candidates@.len() - i,
    {
        let ghost prev = id_set(candidates@.take(i as int));
        let c = &candidates[i];
        if contains_service(webhook_services, c) {
            let d = c.duplicate();
            insert_service(&mut out, d);
        }
        proof {
            assert(ids(candidates@.take(i as int + 1)) =~= ids(candidates@.take(i as int)).push(
                candidates@[i as int]@,
            ));
            lemma_push_to_set(ids(candidates@.take(i as int)), candidates@[i as int]@);
            if targets.contains(candidates@[i as int]@) {
                assert(prev.insert(candidates@[i as int]@).intersect(targets) =~= prev.intersect(
                    targets,
                ).insert(candidates@[i as int]@));
            } else {
                assert(prev.insert(candidates@[i as int]@).intersect(targets) =~= prev.intersect(
                    targets,
                ));
            }
        }
        i += 1;
    }
    proof {
        assert(candidates@.take(candidates@.len() as int) =~= candidates@);
    }
    out
}

/// The webhook targets an Ingress of `ingresses` references: the
/// intersection of the Ingress candidates with the targets.
pub fn services_exposed_by_ingresses(
    ingresses: &Vec<Ingress>,
    webhook_services: &Vec<ServiceDetails>,
) -> (r: Vec<ServiceDetails>)
    ensures
        ids(r@).no_duplicates(),
        id_set(r@) == ingress_candidates(ingresses@).intersect(id_set(webhook_services@)),
{
    let candidates = collect_ingress_candidates(ingresses);
    intersect_services(&candidates, webhook_services)
}

/// The webhook targets a published Service of `services` declares: the
/// intersection of the published candidates with the targets.
pub fn services_exposed_by_published_services(
    services: &Vec<Service>,
    webhook_services: &Vec<ServiceDetails>,
) -> (r: Vec<ServiceDetails>)
    ensures
        ids(r@).no_duplicates(),
        id_set(r@) == service_candidates(services@).intersect(id_set(webhook_services@)),
{
    let candidates = collect_published_candidates(services);
    intersect_services(&candidates, webhook_services)
}

/// Appends every identity of `more` that `acc` does not hold yet.
#[verifier::loop_isolation(false)]
pub fn union_services(acc: &mut Vec<ServiceDetails>, more: &Vec<ServiceDetails>)
    requires
        ids(old(acc)@).no_duplicates(),
    ensures
        ids(final(acc)@).no_duplicates(),
        id_set(final(acc)@) == id_set(old(acc)@).union(id_set(more@)),
{
    proof {
        assert(id_set(acc@) =~= id_set(old(acc)@).union(id_set(more@.take(0))));
    }
    let mut i: usize = 0;
    while i < more.len()
        invariant
            i <= more@.len(),
            ids(acc@).no_duplicates(),
            id_set(acc@) == id_set(old(acc)@).union(id_set(more@.take(i as int))),
        decreases more@.len() - i,
    {
        let d = more[i].duplicate();
        insert_service(acc, d);
        proof {
            assert(ids(more@.take(i as int + 1)) =~= ids(more@.take(i as int)).push(
                more@[i as int]@,
            ));
            lemma_push_to_set(ids(more@.take(i as int)), more@[i as int]@);
            assert(id_set(old(acc)@).union(id_set(more@.take(i as int)).insert(more@[i as int]@))
                =~= id_set(old(acc)@).union(id_set(more@.take(i as int))).insert(more@[i as int]@));
        }
        i += 1;
    }
    proof {
        assert(more@.take(more@.len() as int) =~= more@);
    }
}

/// The distinct namespaces of the webhook targets, in order of first
/// occurrence. Grouping the targets bounds the cluster queries to one pair
/// per distinct namespace.
#[verifier::loop_isolation(false)]
pub fn distinct_namespaces(services: &Vec<ServiceDetails>) -> (r: Vec<String>)
    ensures
        namespace_views(r@).no_duplicates(),
        namespace_views(r@).to_set() == target_namespaces(services@).to_set(),
{
    let mut out: Vec<String> = Vec::new();
    proof {
        assert(namespace_views(out@).to_set() =~= target_namespaces(services@.take(0)).to_set());
    }
    let mut i: usize = 0;
    while i < services.len()
        invariant
            i <= services@.len(),
            namespace_views(out@).no_duplicates(),
            namespace_views(out@).to_set() == target_namespaces(
                services@.take(i as int),
            ).to_set(),
        decreases services@.len() - i,
    {
        let ghost prev = namespace_views(out@);
        let ns = &services[i].namespace;
        if !contains_string(&out, ns) {
            out.push(ns.clone());
            proof {
                assert(namespace_views(out@) =~= prev.push(ns@));
                lemma_push_to_set(prev, ns@);
                assert(!prev.contains(ns@));
                assert forall|p: int, q: int|
                    0 <= p < q < namespace_views(out@).len() implies namespace_views(out@)[p]
                    != namespace_views(out@)[q] by {
                    if q < prev.len() {
                        assert(prev[p] != prev[q]);
                    } else {
                        assert(namespace_views(out@)[q] == ns@);
                        assert(prev[p] != ns@);
                    }
                }
            }
        } else {
            proof {
                assert(namespace_views(out@).to_set() =~= prev.to_set().insert(ns@));
            }
        }
        proof {
            assert(target_namespaces(services@.take(i as int + 1)) =~= target_namespaces(
                services@.take(i as int),
            ).push(services@[i as int].namespace@));
            lemma_push_to_set(
                target_namespaces(services@.take(i as int)),
                services@[i as int].namespace@,
            );
        }
        i += 1;
    }
    proof {
        assert(services@.take(services@.len() as int) =~= services@);
    }
    out
}

/// Whether some string in `v` equals `target`.
fn contains_string(v: &Vec<String>, target: &String) -> (r: bool)
    ensures
        r == namespace_views(v@).contains(target@),
{
    let mut i: usize = 0;
    while i < v.len()
        invariant
            i <= v@.len(),
            forall|j: int| 0 <= j < i ==> namespace_views(v@)[j] != target@,
        decreases v@.len() - i,
    {
        if v[i].eq(target) {
            assert(namespace_views(v@)[i as int] == target@);
            assert(namespace_views(v@).contains(target@));
            return true;
        }
        i += 1;
    }
    assert(forall|j: int| 0 <= j < namespace_views(v@).len() ==> namespace_views(v@)[j]
        != target@);
    false
}

/// The webhook targets lying in the namespace `namespace`, one entry per
/// identity.
#[verifier::loop_isolation(false)]
pub fn services_in_namespace(services: &Vec<ServiceDetails>, namespace: &String) -> (r: Vec<
    ServiceDetails,
>)
    ensures
        ids(r@).no_duplicates(),
        id_set(r@) == in_namespace(id_set(services@), namespace@),
{
    let mut out: Vec<ServiceDetails> = Vec::new();
    proof {
        assert(id_set(out@) =~= in_namespace(id_set(services@.take(0)), namespace@));
    }
    let mut i: usize = 0;
    while i < services.len()
        invariant
            i <= services@.len(),
            ids(out@).no_duplicates(),
            id_set(out@) == in_namespace(id_set(services@.take(i as int)), namespace@),
        decreases services@.len() - i,
    {
        let ghost prev = id_set(services@.take(i as int));
        let s = &services[i];
        if s.namespace.eq(namespace) {
            let d = s.duplicate();
            insert_service(&mut out, d);
        }
        proof {
            assert(ids(services@.take(i as int + 1)) =~= ids(services@.take(i as int)).push(
                services@[i as int]@,
            ));
            lemma_push_to_set(ids(services@.take(i as int)), services@[i as int]@);
            if services@[i as int].namespace@ == namespace@ {
                assert(in_namespace(prev.insert(services@[i as int]@), namespace@)
                    =~= in_namespace(prev, namespace@).insert(services@[i as int]@));
            } else {
                assert(in_namespace(prev.insert(services@[i as int]@), namespace@)
                    =~= in_namespace(prev, namespace@));
            }
        }
        i += 1;
    }
    proof {
        assert(services@.take(services@.len() as int) =~= services@);
    }
    out
}

/// Given the webhook targets of one namespace, find all the ones that an
/// Ingress resource of that namespace exposes.
///
/// The cluster answers the query, so success cannot be promised; whatever
/// comes back, every reported identity is one of the given webhook targets.
/// The exact intersection is stated on [`services_exposed_by_ingresses`],
/// which this function applies to the query's result.
pub fn find_webhook_services_exposed_by_ingress_inside_of_namespace<R: ClusterResourceReader>(
    reader: &R,
    webhook_services: &Vec<ServiceDetails>,
    namespace: &str,
) -> (r: Result<Vec<ServiceDetails>, QueryError>)
    ensures
        r matches Ok(v) ==> ids(v@).no_duplicates() && id_set(v@).subset_of(
            id_set(webhook_services@),
        ),
{
    let ingresses = match reader.list_ingresses(namespace) {
        Ok(v) => v,
        Err(e) => {
            return Err(e);
        },
    };
    let exposed = services_exposed_by_ingresses(&ingresses, webhook_services);
    Ok(exposed)
}

/// Given the webhook targets of one namespace, find all the ones that a
/// `NodePort` or `LoadBalancer` Service of that namespace exposes.
///
/// The cluster answers the query, so success cannot be promised; whatever
/// comes back, every reported identity is one of the given webhook targets.
/// The exact intersection is stated on
/// [`services_exposed_by_published_services`], which this function applies
/// to the query's result.
pub fn find_webhook_services_exposed_by_nodeport_loadbalancer_inside_of_namespace<
    R: ClusterResourceReader,
>(
    reader: &R,
    webhook_services: &Vec<ServiceDetails>,
    namespace: &str,
) -> (r: Result<Vec<ServiceDetails>, QueryError>)
    ensures
        r matches Ok(v) ==> ids(v@).no_duplicates() && id_set(v@).subset_of(
            id_set(webhook_services@),
        ),
{
    let services = match reader.list_services(namespace) {
        Ok(v) => v,
        Err(e) => {
            return Err(e);
        },
    };
    let exposed = services_exposed_by_published_services(&services, webhook_services);
    Ok(exposed)
}

/// The views of a sequence of fetched Ingress lists.
pub open spec fn ingress_list_views(v: Seq<Vec<Ingress>>) -> Seq<Seq<Ingress>> {
    v.map_values(|x: Vec<Ingress>| x@)
}

/// The views of a sequence of fetched Service lists.
pub open spec fn service_list_views(v: Seq<Vec<Service>>) -> Seq<Seq<Service>> {
    v.map_values(|x: Vec<Service>| x@)
}

/// The exposed identities of a whole detection: for each queried namespace,
/// the webhook targets of that namespace that the namespace's fetched
/// Ingresses or published Services expose, unioned over all namespaces. The
/// k-th entries of the three sequences describe one namespace and what its
/// two queries returned.
pub open spec fn spec_exposed_across_namespaces(
    namespaces: Seq<Seq<char>>,
    ingress_lists: Seq<Seq<Ingress>>,
    service_lists: Seq<Seq<Service>>,
    targets: Set<ServiceIdentity>,
) -> Set<ServiceIdentity>
    decreases namespaces.len(),
{
    if namespaces.len() == 0 {
        Set::empty()
    } else {
        spec_exposed_across_namespaces(
            namespaces.drop_last(),
            ingress_lists.drop_last(),
            service_lists.drop_last(),
            targets,
        ).union(
            spec_exposed_in_namespace(
                ingress_lists.last(),
                service_lists.last(),
                in_namespace(targets, namespaces.last()),
            ),
        )
    }
}

proof fn lemma_exposed_across_push(
    namespaces: Seq<Seq<char>>,
    ingress_lists: Seq<Seq<Ingress>>,
    service_lists: Seq<Seq<Service>>,
    targets: Set<ServiceIdentity>,
    ns: Seq<char>,
    ings: Seq<Ingress>,
    svcs: Seq<Service>,
)
    ensures
        spec_exposed_across_namespaces(
            namespaces.push(ns),
            ingress_lists.push(ings),
            service_lists.push(svcs),
            targets,
        ) == spec_exposed_across_namespaces(
            namespaces,
            ingress_lists,
            service_lists,
            targets,
        ).union(spec_exposed_in_namespace(ings, svcs, in_namespace(targets, ns))),
{
    assert(namespaces.push(ns).drop_last() =~= namespaces);
    assert(ingress_lists.push(ings).drop_last() =~= ingress_lists);
    assert(service_lists.push(svcs).drop_last() =~= service_lists);
    assert(namespaces.push(ns).last() == ns);
    assert(ingress_lists.push(ings).last() == ings);
    assert(service_lists.push(svcs).last() == svcs);
}

/// Aggregates one whole detection: for each queried namespace, the webhook
/// targets of that namespace that the namespace's fetched Ingresses or
/// published Services expose, unioned over all namespaces, one entry per
/// identity. The detection applies this function to whatever its queries
/// returned, so the detector's result is pinned exactly as a function of
/// the fetched lists.
#[verifier::loop_isolation(false)]
pub fn exposed_services_across_namespaces(
    namespaces: &Vec<String>,
    ingress_lists: &Vec<Vec<Ingress>>,
    service_lists: &Vec<Vec<Service>>,
    webhook_services: &Vec<ServiceDetails>,
) -> (r: Vec<ServiceDetails>)
    requires
        ingress_lists@.len() == namespaces@.len(),
        service_lists@.len() == namespaces@.len(),
    ensures
        ids(r@).no_duplicates(),
        id_set(r@) == spec_exposed_across_namespaces(
            namespace_views(namespaces@),
            ingress_list_views(ingress_lists@),
            service_list_views(service_lists@),
            id_set(webhook_services@),
        ),
{
    let ghost targets = id_set(webhook_services@);
    let mut exposed: Vec<ServiceDetails> = Vec::new();
    proof {
        assert(namespace_views(namespaces@.take(0)) =~= Seq::<Seq<char>>::empty());
        assert(id_set(exposed@) =~= spec_exposed_across_namespaces(
            namespace_views(namespaces@.take(0)),
            ingress_list_views(ingress_lists@.take(0)),
            service_list_views(service_lists@.take(0)),
            targets,
        ));
    }
    let mut i: usize = 0;
    while i < namespaces.len()
        invariant
            i <= namespaces@.len(),
            ids(exposed@).no_duplicates(),
            id_set(exposed@) == spec_exposed_across_namespaces(
                namespace_views(namespaces@.take(i as int)),
                ingress_list_views(ingress_lists@.take(i as int)),
                service_list_views(service_lists@.take(i as int)),
                targets,
            ),
        decreases namespaces@.len() - i,
    {
        let ghost prev = spec_exposed_across_namespaces(
            namespace_views(namespaces@.take(i as int)),
            ingress_list_views(ingress_lists@.take(i as int)),
            service_list_views(service_lists@.take(i as int)),
            targets,
        );
        let namespace = &namespaces[i];
        let webhook_services_inside_namespace = services_in_namespace(webhook_services, namespace);
        let svcs_exposed_by_ingress = services_exposed_by_ingresses(
            &ingress_lists[i],
            &webhook_services_inside_namespace,
        );
        let svcs_exposed_by_nodeport_loadbalancer = services_exposed_by_published_services(
            &service_lists[i],
            &webhook_services_inside_namespace,
        );
        union_services(&mut exposed, &svcs_exposed_by_ingress);
        union_services(&mut exposed, &svcs_exposed_by_nodeport_loadbalancer);
        proof {
            assert(namespace_views(namespaces@.take(i as int + 1)) =~= namespace_views(
                namespaces@.take(i as int),
            ).push(namespaces@[i as int]@));
            assert(ingress_list_views(ingress_lists@.take(i as int + 1)) =~= ingress_list_views(
                ingress_lists@.take(i as int),
            ).push(ingress_lists@[i as int]@));
            assert(service_list_views(service_lists@.take(i as int + 1)) =~= service_list_views(
                service_lists@.take(i as int),
            ).push(service_lists@[i as int]@));
            lemma_exposed_across_push(
                namespace_views(namespaces@.take(i as int)),
                ingress_list_views(ingress_lists@.take(i as int)),
                service_list_views(service_lists@.take(i as int)),
                targets,
                namespaces@[i as int]@,
                ingress_lists@[i as int]@,
                service_lists@[i as int]@,
            );
            assert(prev.union(id_set(svcs_exposed_by_ingress@)).union(
                id_set(svcs_exposed_by_nodeport_loadbalancer@),
            ) =~= prev.union(
                spec_exposed_in_namespace(
                    ingress_lists@[i as int]@,
                    service_lists@[i as int]@,
                    in_namespace(targets, namespaces@[i as int]@),
                ),
            ));
        }
        i += 1;
    }
    proof {
        assert(namespaces@.take(namespaces@.len() as int) =~= namespaces@);
        assert(ingress_lists@.take(ingress_lists@.len() as int) =~= ingress_lists@);
        assert(service_lists@.take(service_lists@.len() as int) =~= service_lists@);
    }
    exposed
}

/// Given the services used by a webhook configuration, find all the ones
/// that are exposed by an Ingress resource or by a `NodePort`/`LoadBalancer`
/// Service of their own namespace.
///
/// One pair of queries is issued per distinct target namespace; the first
/// failed query aborts the detection, so a partial cluster view is never
/// read as "nothing is exposed". The fetched lists are handed to
/// [`exposed_services_across_namespaces`], whose contract pins the result
/// exactly as a function of them: the union, over the queried namespaces,
/// of the targets the namespace's Ingresses or published Services expose.
/// Here, where the lists cannot be named, the result is a duplicate-free
/// selection of the given targets; with no targets at all, no query is
/// issued and the detection succeeds empty.
#[verifier::loop_isolation(false)]
pub fn find_webhook_services_exposed<R: ClusterResourceReader>(
    reader: &R,
    services: &Vec<ServiceDetails>,
) -> (r: Result<Vec<ServiceDetails>, QueryError>)
    ensures
        r matches Ok(v) ==> ids(v@).no_duplicates() && id_set(v@).subset_of(id_set(services@)),
        services@.len() == 0 ==> (r matches Ok(v) && v@.len() == 0),
{
    let namespaces = distinct_namespaces(services);
    proof {
        if services@.len() == 0 && namespaces@.len() > 0 {
            assert(target_namespaces(services@) =~= Seq::<Seq<char>>::empty());
            assert(namespace_views(namespaces@)[0] == namespaces@[0]@);
            assert(namespace_views(namespaces@).contains(namespaces@[0]@));
            assert(namespace_views(namespaces@).to_set().contains(namespaces@[0]@));
            assert(!target_namespaces(services@).contains(namespaces@[0]@));
            assert(false);
        }
    }
    let mut ingress_lists: Vec<Vec<Ingress>> = Vec::new();
    let mut service_lists: Vec<Vec<Service>> = Vec::new();
    let mut i: usize = 0;
    while i < namespaces.len()
        invariant
            i <= namespaces@.len(),
            ingress_lists@.len() == i,
            service_lists@.len() == i,
        decreases namespaces@.len() - i,
    {
        let namespace = &namespaces[i];
        let ingresses = match reader.list_ingresses(namespace.as_str()) {
            Ok(v) => v,
            Err(e) => {
                return Err(e);
            },
        };
        let cluster_services = match reader.list_services(namespace.as_str()) {
            Ok(v) => v,
            Err(e) => {
                return Err(e);
            },
        };
        ingress_lists.push(ingresses);
        service_lists.push(cluster_services);
        i += 1;
    }
    let exposed = exposed_services_across_namespaces(
        &namespaces,
        &ingress_lists,
        &service_lists,
        services,
    );
    proof {
        lemma_exposed_across_only_targets(
            namespace_views(namespaces@),
            ingress_list_views(ingress_lists@),
            service_list_views(service_lists@),
            id_set(services@),
        );
        if services@.len() == 0 {
            assert(namespace_views(namespaces@) =~= Seq::<Seq<char>>::empty());
            assert(id_set(exposed@) =~= Set::<ServiceIdentity>::empty());
            if exposed@.len() > 0 {
                assert(ids(exposed@)[0] == exposed@[0]@);
                assert(ids(exposed@).contains(exposed@[0]@));
                assert(id_set(exposed@).contains(exposed@[0]@));
                assert(false);
            }
        }
    }
    Ok(exposed)
}

/// The admission object under review, as decoded by the host: one of the
/// two webhook-configuration kinds, or any other kind, which this check
/// does not apply to.
pub enum AdmissionObject {
    Validating(ValidatingWebhookConfiguration),
    Mutating(MutatingWebhookConfiguration),
    Other,
}

/// The services the admission object's webhooks reference.
pub open spec fn admission_targets(o: AdmissionObject) -> Set<ServiceIdentity> {
    match o {
        AdmissionObject::Validating(cfg) => validating_configuration_identities(cfg),
        AdmissionObject::Mutating(cfg) => mutating_configuration_identities(cfg),
        AdmissionObject::Other => Set::empty(),
    }
}

/// The decision on one admission request.
pub enum Verdict {
    /// No webhook target is exposed; the request is accepted.
    Accept,
    /// These webhook targets are exposed; the request is rejected, naming
    /// them.
    Reject(Vec<ServiceDetails>),
}

/// Maps one detection outcome to the decision: accept exactly when the
/// exposed set is empty, reject naming the exposed targets otherwise.
pub fn verdict_for(exposed: Vec<ServiceDetails>) -> (r: Verdict)
    ensures
        exposed@.len() == 0 ==> r == Verdict::Accept,
        exposed@.len() > 0 ==> (r matches Verdict::Reject(e) && e@ == exposed@),
{
    if exposed.len() == 0 {
        Verdict::Accept
    } else {
        Verdict::Reject(exposed)
    }
}

/// Decides one admission request: extracts the webhook targets, runs the
/// detection, and accepts exactly when nothing is exposed.
///
/// An object of any kind other than the two webhook-configuration kinds is
/// accepted immediately, without querying the cluster; so is a
/// configuration whose webhooks reference no service, which issues no
/// query. A rejection names at least one exposed target, each of them a
/// service the configuration's webhooks reference, each named once.
pub fn validate<R: ClusterResourceReader>(reader: &R, object: &AdmissionObject) -> (r: Result<
    Verdict,
    QueryError,
>)
    ensures
        object is Other ==> r == Ok::<Verdict, QueryError>(Verdict::Accept),
        admission_targets(*object) == Set::<ServiceIdentity>::empty() ==> r == Ok::<
            Verdict,
            QueryError,
        >(Verdict::Accept),
        r matches Ok(Verdict::Reject(exposed)) ==> ids(exposed@).no_duplicates() && id_set(
            exposed@,
        ).subset_of(admission_targets(*object)) && exposed@.len() > 0,
{
    let services = match object {
        AdmissionObject::Validating(cfg) => cfg.get_services(),
        AdmissionObject::Mutating(cfg) => cfg.get_services(),
        AdmissionObject::Other => {
            return Ok(Verdict::Accept);
        },
    };
    proof {
        if admission_targets(*object) == Set::<ServiceIdentity>::empty() && services@.len() > 0 {
            assert(ids(services@)[0] == services@[0]@);
            assert(ids(services@).contains(services@[0]@));
            assert(id_set(services@).contains(services@[0]@));
            assert(false);
        }
    }
    let exposed = match find_webhook_services_exposed(reader, &services) {
        Ok(v) => v,
        Err(e) => {
            return Err(e);
        },
    };
    Ok(verdict_for(exposed))
}

/// Law: matching is exact on the whole triple — two identities are the
/// same exactly when namespace, name and port all agree. In particular a
/// target at one port is never matched by a candidate at another.
pub proof fn lemma_match_is_exact(a: ServiceIdentity, b: ServiceIdentity)
    ensures
        (a == b) <==> (a.namespace == b.namespace && a.name == b.name && a.port == b.port),
{
}

/// Law: namespace isolation — identities in two different namespaces never
/// match, whatever their names and ports.
pub proof fn lemma_namespace_isolation(a: ServiceIdentity, b: ServiceIdentity)
    requires
        a.namespace != b.namespace,
    ensures
        a != b,
{
}

/// Law: a Service that is not published — its type absent, or anything
/// other than `NodePort` or `LoadBalancer` — contributes nothing to the
/// published candidates, whatever its ports declare.
pub proof fn lemma_unpublished_service_contributes_nothing(svcs: Seq<Service>, s: Service)
    requires
        !spec_is_published(s),
    ensures
        service_candidates(svcs.push(s)) == service_candidates(svcs),
{
    lemma_service_candidates_push(svcs, s);
    assert(service_candidates(svcs).union(Set::<ServiceIdentity>::empty()) =~= service_candidates(
        svcs,
    ));
}

/// Law: a Service of type `ClusterIP` is never published.
pub proof fn lemma_cluster_ip_never_published(s: Service)
    requires
        s.spec matches Some(sp) && sp.type_ matches Some(t) && t@ == "ClusterIP"@,
    ensures
        !spec_is_published(s),
{
    reveal_strlit("ClusterIP");
    reveal_strlit("NodePort");
    reveal_strlit("LoadBalancer");
    assert("ClusterIP"@.len() == 9);
    assert("NodePort"@.len() == 8);
    assert("LoadBalancer"@.len() == 12);
}

/// Law: the exposed set of a namespace holds webhook targets only; nothing
/// a webhook does not reference is ever reported.
pub proof fn lemma_exposed_only_targets(
    ings: Seq<Ingress>,
    svcs: Seq<Service>,
    targets: Set<ServiceIdentity>,
)
    ensures
        spec_exposed_in_namespace(ings, svcs, targets).subset_of(targets),
{
}

/// Law: over a whole detection, only webhook targets are ever reported
/// exposed, whatever the cluster returned for any namespace.
pub proof fn lemma_exposed_across_only_targets(
    namespaces: Seq<Seq<char>>,
    ingress_lists: Seq<Seq<Ingress>>,
    service_lists: Seq<Seq<Service>>,
    targets: Set<ServiceIdentity>,
)
    ensures
        spec_exposed_across_namespaces(
            namespaces,
            ingress_lists,
            service_lists,
            targets,
        ).subset_of(targets),
    decreases namespaces.len(),
{
    if namespaces.len() > 0 {
        lemma_exposed_across_only_targets(
            namespaces.drop_last(),
            ingress_lists.drop_last(),
            service_lists.drop_last(),
            targets,
        );
        lemma_exposed_only_targets(
            ingress_lists.last(),
            service_lists.last(),
            in_namespace(targets, namespaces.last()),
        );
        assert forall|id: ServiceIdentity|
            spec_exposed_across_namespaces(
                namespaces,
                ingress_lists,
                service_lists,
                targets,
            ).contains(id) implies targets.contains(id) by {
            if spec_exposed_in_namespace(
                ingress_lists.last(),
                service_lists.last(),
                in_namespace(targets, namespaces.last()),
            ).contains(id) {
                assert(in_namespace(targets, namespaces.last()).contains(id));
            }
        }
    }
}

/// Law: detection is idempotent — two detection results computed from the
/// same per-namespace cluster answers and the same webhook targets hold
/// exactly the same identities, whatever order either run produced them
/// in. The hypothesis is exactly what the contract of
/// [`exposed_services_across_namespaces`] gives of each run's result.
pub proof fn lemma_detection_idempotent(
    namespaces: Seq<Seq<char>>,
    ingress_lists: Seq<Seq<Ingress>>,
    service_lists: Seq<Seq<Service>>,
    targets: Set<ServiceIdentity>,
    r1: Seq<ServiceDetails>,
    r2: Seq<ServiceDetails>,
)
    requires
        id_set(r1) == spec_exposed_across_namespaces(
            namespaces,
            ingress_lists,
            service_lists,
            targets,
        ),
        id_set(r2) == spec_exposed_across_namespaces(
            namespaces,
            ingress_lists,
            service_lists,
            targets,
        ),
    ensures
        id_set(r1) == id_set(r2),
{
}

} // verus!
