//! Extraction of service identities from each resource kind.
//!
//! Each Kubernetes resource kind nests its service references differently
//! (webhooks hold a client configuration, Ingresses route rules and paths
//! to backends, Services declare ports). The [`ServiceFinder`] capability
//! gives every kind one mathematical model, `spec_services`, and one
//! verified collector, `get_services`.

use crate::resources::{
    HTTPIngressPath, Ingress, IngressBackend, IngressRule, MutatingWebhook,
    MutatingWebhookConfiguration, ObjectMeta, Service, ServicePort, ValidatingWebhook,
    ValidatingWebhookConfiguration, meta_name_or_empty, meta_namespace_or_empty,
};
use crate::service_details::{
    ServiceDetails, ServiceIdentity, backend_identity, id_set, ids, insert_service,
    lemma_push_to_set, reference_identity,
};
use vstd::prelude::*;

verus! {

/// The identities referenced by the client configurations of a sequence of
/// validating webhooks: one per entry that names a service, in order.
/// Entries with a URL-based client configuration contribute nothing.
pub open spec fn validating_webhook_identities(ws: Seq<ValidatingWebhook>) -> Seq<ServiceIdentity>
    decreases ws.len(),
{
    if ws.len() == 0 {
        Seq::empty()
    } else {
        let rest = validating_webhook_identities(ws.drop_last());
        match ws.last().client_config.service {
            Some(r) => rest.push(reference_identity(r)),
            None => rest,
        }
    }
}

/// The identities referenced by the client configurations of a sequence of
/// mutating webhooks: one per entry that names a service, in order.
pub open spec fn mutating_webhook_identities(ws: Seq<MutatingWebhook>) -> Seq<ServiceIdentity>
    decreases ws.len(),
{
    if ws.len() == 0 {
        Seq::empty()
    } else {
        let rest = mutating_webhook_identities(ws.drop_last());
        match ws.last().client_config.service {
            Some(r) => rest.push(reference_identity(r)),
            None => rest,
        }
    }
}

/// The identities referenced by the backends of a sequence of HTTP paths,
/// each tagged with the namespace `ns`.
pub open spec fn path_backend_identities(ns: Seq<char>, paths: Seq<HTTPIngressPath>) -> Seq<
    ServiceIdentity,
>
    decreases paths.len(),
{
    if paths.len() == 0 {
        Seq::empty()
    } else {
        let rest = path_backend_identities(ns, paths.drop_last());
        match paths.last().backend.service {
            Some(b) => rest.push(backend_identity(ns, b)),
            None => rest,
        }
    }
}

/// The identities referenced by one Ingress rule: those of its HTTP paths.
pub open spec fn rule_identities(ns: Seq<char>, r: IngressRule) -> Seq<ServiceIdentity> {
    match r.http {
        Some(h) => path_backend_identities(ns, h.paths@),
        None => Seq::empty(),
    }
}

/// The identities referenced by a sequence of Ingress rules.
pub open spec fn rules_identities(ns: Seq<char>, rules: Seq<IngressRule>) -> Seq<ServiceIdentity>
    decreases rules.len(),
{
    if rules.len() == 0 {
        Seq::empty()
    } else {
        rules_identities(ns, rules.drop_last()) + rule_identities(ns, rules.last())
    }
}

/// The identity set of an Ingress's default backend: one identity when a
/// backend service is named, empty otherwise.
pub open spec fn default_backend_identities(ns: Seq<char>, db: Option<IngressBackend>) -> Set<
    ServiceIdentity,
> {
    match db {
        Some(b) => match b.service {
            Some(s) => Set::empty().insert(backend_identity(ns, s)),
            None => Set::empty(),
        },
        None => Set::empty(),
    }
}

/// The identity published by one declared port of a Service.
pub open spec fn port_identity(meta: ObjectMeta, p: ServicePort) -> ServiceIdentity {
    ServiceIdentity {
        namespace: meta_namespace_or_empty(meta),
        name: meta_name_or_empty(meta),
        port: Some(p.port),
    }
}

/// The identities published by the declared ports of a Service: one per
/// port, all sharing the Service's name and namespace.
pub open spec fn port_identities(meta: ObjectMeta, ports: Seq<ServicePort>) -> Seq<ServiceIdentity>
    decreases ports.len(),
{
    if ports.len() == 0 {
        Seq::empty()
    } else {
        port_identities(meta, ports.drop_last()).push(port_identity(meta, ports.last()))
    }
}

/// The set of identities a `ValidatingWebhookConfiguration` references.
pub open spec fn validating_configuration_identities(c: ValidatingWebhookConfiguration) -> Set<
    ServiceIdentity,
> {
    match c.webhooks {
        Some(ws) => validating_webhook_identities(ws@).to_set(),
        None => Set::empty(),
    }
}

/// The set of identities a `MutatingWebhookConfiguration` references.
pub open spec fn mutating_configuration_identities(c: MutatingWebhookConfiguration) -> Set<
    ServiceIdentity,
> {
    match c.webhooks {
        Some(ws) => mutating_webhook_identities(ws@).to_set(),
        None => Set::empty(),
    }
}

/// The set of identities an Ingress references: its default backend and
/// every rule-path backend, each in the Ingress's own namespace.
pub open spec fn ingress_identities(i: Ingress) -> Set<ServiceIdentity> {
    match i.spec {
        None => Set::empty(),
        Some(spec) => {
            let ns = meta_namespace_or_empty(i.metadata);
            default_backend_identities(ns, spec.default_backend).union(
                match spec.rules {
                    Some(rs) => rules_identities(ns, rs@).to_set(),
                    None => Set::empty(),
                },
            )
        },
    }
}

/// The set of identities a Service declares: one per declared port.
pub open spec fn service_identities(s: Service) -> Set<ServiceIdentity> {
    match s.spec {
        Some(sp) => match sp.ports {
            Some(ports) => port_identities(s.metadata, ports@).to_set(),
            None => Set::empty(),
        },
        None => Set::empty(),
    }
}

/// The capability of a resource kind to name the services it references or
/// publishes.
pub trait ServiceFinder {
    /// The set of service identities this resource references or exposes.
    spec fn spec_services(&self) -> Set<ServiceIdentity>;

    /// Find all the services that are defined inside of the object, one
    /// entry per identity.
    fn get_services(&self) -> (r: Vec<ServiceDetails>)
        ensures
            ids(r@).no_duplicates(),
            id_set(r@) == self.spec_services(),
    ;
}

proof fn lemma_validating_webhook_identities_push(ws: Seq<ValidatingWebhook>, w: ValidatingWebhook)
    ensures
        validating_webhook_identities(ws.push(w)) == (match w.client_config.service {
            Some(r) => validating_webhook_identities(ws).push(reference_identity(r)),
            None => validating_webhook_identities(ws),
        }),
{
    assert(ws.push(w).drop_last() =~= ws);
    assert(ws.push(w).last() == w);
}

proof fn lemma_mutating_webhook_identities_push(ws: Seq<MutatingWebhook>, w: MutatingWebhook)
    ensures
        mutating_webhook_identities(ws.push(w)) == (match w.client_config.service {
            Some(r) => mutating_webhook_identities(ws).push(reference_identity(r)),
            None => mutating_webhook_identities(ws),
        }),
{
    assert(ws.push(w).drop_last() =~= ws);
    assert(ws.push(w).last() == w);
}

proof fn lemma_path_backend_identities_push(ns: Seq<char>, s: Seq<HTTPIngressPath>, p: HTTPIngressPath)
    ensures
        path_backend_identities(ns, s.push(p)) == (match p.backend.service {
            Some(b) => path_backend_identities(ns, s).push(backend_identity(ns, b)),
            None => path_backend_identities(ns, s),
        }),
{
    assert(s.push(p).drop_last() =~= s);
    assert(s.push(p).last() == p);
}

proof fn lemma_rules_identities_push(ns: Seq<char>, s: Seq<IngressRule>, r: IngressRule)
    ensures
        rules_identities(ns, s.push(r)) == rules_identities(ns, s) + rule_identities(ns, r),
{
    assert(s.push(r).drop_last() =~= s);
    assert(s.push(r).last() == r);
}

proof fn lemma_port_identities_push(meta: ObjectMeta, s: Seq<ServicePort>, p: ServicePort)
    ensures
        port_identities(meta, s.push(p)) == port_identities(meta, s).push(port_identity(meta, p)),
{
    assert(s.push(p).drop_last() =~= s);
    assert(s.push(p).last() == p);
}

/// Concatenating two sequences unions their sets.
pub proof fn lemma_to_set_concat<A>(a: Seq<A>, b: Seq<A>)
    ensures
        (a + b).to_set() == a.to_set().union(b.to_set()),
{
    assert forall|y: A| (a + b).to_set().contains(y) <==> a.to_set().union(b.to_set()).contains(
        y,
    ) by {
        if (a + b).contains(y) {
            let i = choose|i: int| 0 <= i < (a + b).len() && (a + b)[i] == y;
            if i < a.len() {
                assert(a[i] == y);
                assert(a.contains(y));
            } else {
                assert(b[i - a.len()] == y);
                assert(b.contains(y));
            }
        }
        if a.contains(y) {
            let i = choose|i: int| 0 <= i < a.len() && a[i] == y;
            assert((a + b)[i] == y);
            assert((a + b).contains(y));
        }
        if b.contains(y) {
            let i = choose|i: int| 0 <= i < b.len() && b[i] == y;
            assert((a + b)[a.len() + i] == y);
            assert((a + b).contains(y));
        }
    }
    assert((a + b).to_set() =~= a.to_set().union(b.to_set()));
}

impl ServiceFinder for ValidatingWebhookConfiguration {
    open spec fn spec_services(&self) -> Set<ServiceIdentity> {
        validating_configuration_identities(*self)
    }

    #[verifier::loop_isolation(false)]
    fn get_services(&self) -> (r: Vec<ServiceDetails>) {
        let mut out: Vec<ServiceDetails> = Vec::new();
        match &self.webhooks {
            None => {
                proof {
                    assert(id_set(out@) =~= Set::<ServiceIdentity>::empty());
                }
            },
            Some(ws) => {
                let mut i: usize = 0;
                while i < ws.len()
                    invariant
                        i <= ws@.len(),
                        ids(out@).no_duplicates(),
                        id_set(out@) == validating_webhook_identities(ws@.take(i as int)).to_set(),
                    decreases ws@.len() - i,
                {
                    let ghost prev = ws@.take(i as int);
                    let ghost prev_ids = validating_webhook_identities(prev);
                    match &ws[i].client_config.service {
                        Some(svc) => {
                            let d = ServiceDetails::from_service_reference(svc);
                            insert_service(&mut out, d);
                        },
                        None => {},
                    }
                    proof {
                        assert(ws@.take(i as int + 1) =~= prev.push(ws@[i as int]));
                        lemma_validating_webhook_identities_push(prev, ws@[i as int]);
                        match ws@[i as int].client_config.service {
                            Some(r) => {
                                lemma_push_to_set(prev_ids, reference_identity(r));
                            },
                            None => {},
                        }
                    }
                    i += 1;
                }
                proof {
                    assert(ws@.take(ws@.len() as int) =~= ws@);
                }
            },
        }
        out
    }
}

impl ServiceFinder for MutatingWebhookConfiguration {
    open spec fn spec_services(&self) -> Set<ServiceIdentity> {
        mutating_configuration_identities(*self)
    }

    #[verifier::loop_isolation(false)]
    fn get_services(&self) -> (r: Vec<ServiceDetails>) {
        let mut out: Vec<ServiceDetails> = Vec::new();
        match &self.webhooks {
            None => {
                proof {
                    assert(id_set(out@) =~= Set::<ServiceIdentity>::empty());
                }
            },
            Some(ws) => {
                let mut i: usize = 0;
                while i < ws.len()
                    invariant
                        i <= ws@.len(),
                        ids(out@).no_duplicates(),
                        id_set(out@) == mutating_webhook_identities(ws@.take(i as int)).to_set(),
                    decreases ws@.len() - i,
                {
                    let ghost prev = ws@.take(i as int);
                    let ghost prev_ids = mutating_webhook_identities(prev);
                    match &ws[i].client_config.service {
                        Some(svc) => {
                            let d = ServiceDetails::from_service_reference(svc);
                            insert_service(&mut out, d);
                        },
                        None => {},
                    }
                    proof {
                        assert(ws@.take(i as int + 1) =~= prev.push(ws@[i as int]));
                        lemma_mutating_webhook_identities_push(prev, ws@[i as int]);
                        match ws@[i as int].client_config.service {
                            Some(r) => {
                                lemma_push_to_set(prev_ids, reference_identity(r));
                            },
                            None => {},
                        }
                    }
                    i += 1;
                }
                proof {
                    assert(ws@.take(ws@.len() as int) =~= ws@);
                }
            },
        }
        out
    }
}

impl ServiceFinder for Ingress {
    open spec fn spec_services(&self) -> Set<ServiceIdentity> {
        ingress_identities(*self)
    }

    #[verifier::loop_isolation(false)]
    fn get_services(&self) -> (r: Vec<ServiceDetails>) {
        let mut out: Vec<ServiceDetails> = Vec::new();
        let spec = match &self.spec {
            None => {
                proof {
                    assert(id_set(out@) =~= Set::<ServiceIdentity>::empty());
                }
                return out;
            },
            Some(s) => s,
        };
        let namespace: String = match &self.metadata.namespace {
            Some(n) => n.clone(),
            None => String::new(),
        };
        let ghost ns = meta_namespace_or_empty(self.metadata);
        let ghost db_set = default_backend_identities(ns, spec.default_backend);
        match &spec.default_backend {
            Some(db) => match &db.service {
                Some(svc) => {
                    let d = ServiceDetails::from_service_backend(&namespace, svc);
                    insert_service(&mut out, d);
                    proof {
                        assert(id_set(out@) =~= db_set);
                    }
                },
                None => {
                    proof {
                        assert(id_set(out@) =~= db_set);
                    }
                },
            },
            None => {
                proof {
                    assert(id_set(out@) =~= db_set);
                }
            },
        }
        match &spec.rules {
            None => {
                proof {
                    assert(id_set(out@) =~= db_set.union(Set::<ServiceIdentity>::empty()));
                }
            },
            Some(rules) => {
                proof {
                    assert(rules@.take(0) =~= Seq::<IngressRule>::empty());
                    assert(id_set(out@) =~= db_set.union(
                        rules_identities(ns, rules@.take(0)).to_set(),
                    ));
                }
                let mut i: usize = 0;
                while i < rules.len()
                    invariant
                        i <= rules@.len(),
                        ids(out@).no_duplicates(),
                        id_set(out@) == db_set.union(
                            rules_identities(ns, rules@.take(i as int)).to_set(),
                        ),
                    decreases rules@.len() - i,
                {
                    let ghost rules_prev = rules@.take(i as int);
                    let ghost prev_set = rules_identities(ns, rules_prev).to_set();
                    match &rules[i].http {
                        None => {
                            proof {
                                assert(rules@.take(i as int + 1) =~= rules_prev.push(
                                    rules@[i as int],
                                ));
                                lemma_rules_identities_push(ns, rules_prev, rules@[i as int]);
                                assert(rules_identities(ns, rules_prev) + rule_identities(
                                    ns,
                                    rules@[i as int],
                                ) =~= rules_identities(ns, rules_prev));
                            }
                        },
                        Some(http) => {
                            proof {
                                assert(http.paths@.take(0) =~= Seq::<HTTPIngressPath>::empty());
                                assert(id_set(out@) =~= db_set.union(prev_set).union(
                                    path_backend_identities(
                                        ns,
                                        http.paths@.take(0),
                                    ).to_set(),
                                ));
                            }
                            let mut j: usize = 0;
                            while j < http.paths.len()
                                invariant
                                    j <= http.paths@.len(),
                                    ids(out@).no_duplicates(),
                                    id_set(out@) == db_set.union(prev_set).union(
                                        path_backend_identities(
                                            ns,
                                            http.paths@.take(j as int),
                                        ).to_set(),
                                    ),
                                decreases http.paths@.len() - j,
                            {
                                let ghost paths_prev = http.paths@.take(j as int);
                                let ghost paths_prev_ids = path_backend_identities(ns, paths_prev);
                                match &http.paths[j].backend.service {
                                    Some(svc) => {
                                        let d = ServiceDetails::from_service_backend(
                                            &namespace,
                                            svc,
                                        );
                                        insert_service(&mut out, d);
                                    },
                                    None => {},
                                }
                                proof {
                                    assert(http.paths@.take(j as int + 1) =~= paths_prev.push(
                                        http.paths@[j as int],
                                    ));
                                    lemma_path_backend_identities_push(
                                        ns,
                                        paths_prev,
                                        http.paths@[j as int],
                                    );
                                    match http.paths@[j as int].backend.service {
                                        Some(b) => {
                                            lemma_push_to_set(
                                                paths_prev_ids,
                                                backend_identity(ns, b),
                                            );
                                            assert(db_set.union(prev_set).union(
                                                paths_prev_ids.to_set().insert(
                                                    backend_identity(ns, b),
                                                ),
                                            ) =~= db_set.union(prev_set).union(
                                                paths_prev_ids.to_set(),
                                            ).insert(backend_identity(ns, b)));
                                        },
                                        None => {},
                                    }
                                }
                                j += 1;
                            }
                            proof {
                                assert(http.paths@.take(http.paths@.len() as int) =~= http.paths@);
                                assert(rules@.take(i as int + 1) =~= rules_prev.push(
                                    rules@[i as int],
                                ));
                                lemma_rules_identities_push(ns, rules_prev, rules@[i as int]);
                                lemma_to_set_concat(
                                    rules_identities(ns, rules_prev),
                                    rule_identities(ns, rules@[i as int]),
                                );
                                assert(rule_identities(ns, rules@[i as int])
                                    == path_backend_identities(ns, http.paths@));
                                assert(db_set.union(prev_set).union(
                                    path_backend_identities(ns, http.paths@).to_set(),
                                ) =~= db_set.union(
                                    rules_identities(ns, rules@.take(i as int + 1)).to_set(),
                                ));
                            }
                        },
                    }
                    i += 1;
                }
                proof {
                    assert(rules@.take(rules@.len() as int) =~= rules@);
                }
            },
        }
        out
    }
}

impl ServiceFinder for Service {
    open spec fn spec_services(&self) -> Set<ServiceIdentity> {
        service_identities(*self)
    }

    #[verifier::loop_isolation(false)]
    fn get_services(&self) -> (r: Vec<ServiceDetails>) {
        let mut out: Vec<ServiceDetails> = Vec::new();
        let spec = match &self.spec {
            None => {
                proof {
                    assert(id_set(out@) =~= Set::<ServiceIdentity>::empty());
                }
                return out;
            },
            Some(s) => s,
        };
        let ports = match &spec.ports {
            None => {
                proof {
                    assert(id_set(out@) =~= Set::<ServiceIdentity>::empty());
                }
                return out;
            },
            Some(p) => p,
        };
        let name: String = match &self.metadata.name {
            Some(n) => n.clone(),
            None => String::new(),
        };
        let namespace: String = match &self.metadata.namespace {
            Some(n) => n.clone(),
            None => String::new(),
        };
        proof {
            assert(ports@.take(0) =~= Seq::<ServicePort>::empty());
            assert(id_set(out@) =~= port_identities(self.metadata, ports@.take(0)).to_set());
        }
        let mut i: usize = 0;
        while i < ports.len()
            invariant
                i <= ports@.len(),
                ids(out@).no_duplicates(),
                id_set(out@) == port_identities(self.metadata, ports@.take(i as int)).to_set(),
            decreases ports@.len() - i,
        {
            let ghost ports_prev = ports@.take(i as int);
            let d = ServiceDetails {
                name: name.clone(),
                namespace: namespace.clone(),
                port_number: Some(ports[i].port),
            };
            insert_service(&mut out, d);
            proof {
                assert(d@ == port_identity(self.metadata, ports@[i as int]));
                assert(ports@.take(i as int + 1) =~= ports_prev.push(ports@[i as int]));
                lemma_port_identities_push(self.metadata, ports_prev, ports@[i as int]);
                lemma_push_to_set(
                    port_identities(self.metadata, ports_prev),
                    port_identity(self.metadata, ports@[i as int]),
                );
            }
            i += 1;
        }
        proof {
            assert(ports@.take(ports@.len() as int) =~= ports@);
        }
        out
    }
}

proof fn lemma_push_contains<A>(s: Seq<A>, x: A, y: A)
    ensures
        s.push(x).contains(y) <==> s.contains(y) || y == x,
{
    crate::service_details::lemma_push_to_set(s, x);
    assert(s.push(x).to_set().contains(y) == s.push(x).contains(y));
    assert(s.to_set().contains(y) == s.contains(y));
}

proof fn lemma_concat_contains<A>(a: Seq<A>, b: Seq<A>, y: A)
    ensures
        (a + b).contains(y) <==> a.contains(y) || b.contains(y),
{
    lemma_to_set_concat(a, b);
    assert((a + b).to_set().contains(y) == (a + b).contains(y));
    assert(a.to_set().contains(y) == a.contains(y));
    assert(b.to_set().contains(y) == b.contains(y));
}

proof fn lemma_port_identities_index(meta: ObjectMeta, ports: Seq<ServicePort>)
    ensures
        port_identities(meta, ports).len() == ports.len(),
        forall|k: int|
            0 <= k < ports.len() ==> port_identities(meta, ports)[k] == port_identity(
                meta,
                ports[k],
            ),
    decreases ports.len(),
{
    if ports.len() > 0 {
        lemma_port_identities_index(meta, ports.drop_last());
        assert forall|k: int|
            0 <= k < ports.len() implies port_identities(meta, ports)[k] == port_identity(
            meta,
            ports[k],
        ) by {
            if k < ports.len() - 1 {
                assert(ports.drop_last()[k] == ports[k]);
                assert(port_identities(meta, ports)[k] == port_identities(
                    meta,
                    ports.drop_last(),
                )[k]);
            }
        }
    }
}

/// Law: a Service with N declared ports yields exactly one identity per
/// port, in order, all sharing the Service's name and namespace; when the N
/// port numbers are distinct, the extracted set has exactly N identities.
pub proof fn lemma_one_identity_per_declared_port(s: Service, ports: Seq<ServicePort>)
    requires
        s.spec matches Some(sp) && sp.ports matches Some(pv) && pv@ == ports,
    ensures
        service_identities(s) == port_identities(s.metadata, ports).to_set(),
        port_identities(s.metadata, ports).len() == ports.len(),
        forall|k: int|
            0 <= k < ports.len() ==> port_identities(s.metadata, ports)[k] == port_identity(
                s.metadata,
                ports[k],
            ),
        forall|id: ServiceIdentity|
            service_identities(s).contains(id) ==> id.namespace == meta_namespace_or_empty(
                s.metadata,
            ) && id.name == meta_name_or_empty(s.metadata),
        (forall|i: int, j: int| 0 <= i < j < ports.len() ==> ports[i].port != ports[j].port)
            ==> service_identities(s).len() == ports.len(),
{
    lemma_port_identities_index(s.metadata, ports);
    let pi = port_identities(s.metadata, ports);
    assert forall|id: ServiceIdentity|
        service_identities(s).contains(id) implies id.namespace == meta_namespace_or_empty(
        s.metadata,
    ) && id.name == meta_name_or_empty(s.metadata) by {
        assert(pi.contains(id));
        let k = choose|k: int| 0 <= k < pi.len() && pi[k] == id;
        assert(pi[k] == port_identity(s.metadata, ports[k]));
    }
    if forall|i: int, j: int| 0 <= i < j < ports.len() ==> ports[i].port != ports[j].port {
        assert forall|i: int, j: int| 0 <= i < j < pi.len() implies pi[i] != pi[j] by {
            assert(ports[i].port != ports[j].port);
            assert(pi[i].port == Some(ports[i].port));
            assert(pi[j].port == Some(ports[j].port));
        }
        assert(pi.no_duplicates());
        pi.unique_seq_to_set();
    }
}

proof fn lemma_path_backend_identities_contains(
    ns: Seq<char>,
    paths: Seq<HTTPIngressPath>,
    id: ServiceIdentity,
)
    ensures
        path_backend_identities(ns, paths).contains(id) <==> exists|j: int|
            0 <= j < paths.len() && ((#[trigger] paths[j]).backend.service matches Some(b) && id
                == backend_identity(ns, b)),
    decreases paths.len(),
{
    if paths.len() == 0 {
    } else {
        let prefix = paths.drop_last();
        lemma_path_backend_identities_contains(ns, prefix, id);
        let rest = path_backend_identities(ns, prefix);
        match paths.last().backend.service {
            Some(b) => {
                lemma_push_contains(rest, backend_identity(ns, b), id);
            },
            None => {},
        }
        if rest.contains(id) {
            let j = choose|j: int|
                0 <= j < prefix.len() && ((#[trigger] prefix[j]).backend.service matches Some(b)
                    && id == backend_identity(ns, b));
            assert(paths[j] == prefix[j]);
            assert((#[trigger] paths[j]).backend.service matches Some(b) && id
                == backend_identity(ns, b));
        }
        if path_backend_identities(ns, paths).contains(id) && !rest.contains(id) {
            assert(paths[paths.len() - 1] == paths.last());
        }
        if exists|j: int|
            0 <= j < paths.len() && ((#[trigger] paths[j]).backend.service matches Some(b) && id
                == backend_identity(ns, b)) {
            let j = choose|j: int|
                0 <= j < paths.len() && ((#[trigger] paths[j]).backend.service matches Some(b)
                    && id == backend_identity(ns, b));
            if j < paths.len() - 1 {
                assert(prefix[j] == paths[j]);
                assert((#[trigger] prefix[j]).backend.service matches Some(b) && id
                    == backend_identity(ns, b));
                assert(rest.contains(id));
                match paths.last().backend.service {
                    Some(b) => {
                        assert(path_backend_identities(ns, paths).contains(id));
                    },
                    None => {},
                }
            } else {
                assert(paths[j] == paths.last());
            }
        }
    }
}

proof fn lemma_rules_identities_contains(ns: Seq<char>, rules: Seq<IngressRule>, id: ServiceIdentity)
    ensures
        rules_identities(ns, rules).contains(id) <==> exists|i: int|
            0 <= i < rules.len() && rule_identities(ns, #[trigger] rules[i]).contains(id),
    decreases rules.len(),
{
    if rules.len() == 0 {
    } else {
        let prefix = rules.drop_last();
        lemma_rules_identities_contains(ns, prefix, id);
        lemma_concat_contains(
            rules_identities(ns, prefix),
            rule_identities(ns, rules.last()),
            id,
        );
        if rules_identities(ns, prefix).contains(id) {
            let i = choose|i: int|
                0 <= i < prefix.len() && rule_identities(ns, #[trigger] prefix[i]).contains(id);
            assert(rules[i] == prefix[i]);
            assert(rule_identities(ns, #[trigger] rules[i]).contains(id));
        }
        if rule_identities(ns, rules.last()).contains(id) {
            assert(rules[rules.len() - 1] == rules.last());
            assert(rule_identities(ns, #[trigger] rules[rules.len() - 1]).contains(id));
        }
        if exists|i: int| 0 <= i < rules.len() && rule_identities(ns, #[trigger] rules[i]).contains(
            id,
        ) {
            let i = choose|i: int|
                0 <= i < rules.len() && rule_identities(ns, #[trigger] rules[i]).contains(id);
            if i < rules.len() - 1 {
                assert(prefix[i] == rules[i]);
                assert(rule_identities(ns, #[trigger] prefix[i]).contains(id));
                assert(rules_identities(ns, prefix).contains(id));
            }
        }
    }
}

/// Law: an Ingress's extraction is exactly the union of its default
/// backend, if any, and of every HTTP rule-path backend, duplicates
/// collapsed; and every extracted identity carries the Ingress's own
/// namespace, whatever the backend references say.
pub proof fn lemma_ingress_extraction(ing: Ingress, id: ServiceIdentity)
    ensures
        ingress_identities(ing).contains(id) <==> (ing.spec matches Some(spec) && (
        (spec.default_backend matches Some(db) && db.service matches Some(b) && id
            == backend_identity(meta_namespace_or_empty(ing.metadata), b)) || (
        spec.rules matches Some(rules) && exists|i: int|
            0 <= i < rules@.len() && ((#[trigger] rules@[i]).http matches Some(h) && exists|j: int|
                0 <= j < h.paths@.len() && ((#[trigger] h.paths@[j]).backend.service matches Some(
                    b2,
                ) && id == backend_identity(meta_namespace_or_empty(ing.metadata), b2)))))),
        ingress_identities(ing).contains(id) ==> id.namespace == meta_namespace_or_empty(
            ing.metadata,
        ),
{
    match ing.spec {
        None => {},
        Some(spec) => {
            let ns = meta_namespace_or_empty(ing.metadata);
            match spec.rules {
                None => {},
                Some(rules) => {
                    lemma_rules_identities_contains(ns, rules@, id);
                    assert forall|i: int|
                        0 <= i < rules@.len() implies (rule_identities(
                        ns,
                        #[trigger] rules@[i],
                    ).contains(id) <==> (rules@[i].http matches Some(h) && exists|j: int|
                        0 <= j < h.paths@.len() && ((#[trigger] h.paths@[j]).backend.service
                            matches Some(b2) && id == backend_identity(ns, b2)))) by {
                        match rules@[i].http {
                            Some(h) => {
                                lemma_path_backend_identities_contains(ns, h.paths@, id);
                            },
                            None => {},
                        }
                    }
                },
            }
        },
    }
    if ingress_identities(ing).contains(id) {
        match ing.spec {
            None => {},
            Some(spec) => {
                let ns = meta_namespace_or_empty(ing.metadata);
                if !default_backend_identities(ns, spec.default_backend).contains(id) {
                    match spec.rules {
                        None => {},
                        Some(rules) => {
                            lemma_rules_identities_contains(ns, rules@, id);
                            let i = choose|i: int|
                                0 <= i < rules@.len() && rule_identities(
                                    ns,
                                    #[trigger] rules@[i],
                                ).contains(id);
                            match rules@[i].http {
                                Some(h) => {
                                    lemma_path_backend_identities_contains(ns, h.paths@, id);
                                },
                                None => {},
                            }
                        },
                    }
                }
            },
        }
    }
}

} // verus!
