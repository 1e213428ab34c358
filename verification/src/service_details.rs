//! The identity of a service-port pairing: the unit of comparison of the
//! whole detection algorithm.

use crate::resources::{IngressServiceBackend, ServiceBackendPort, ServiceReference};
use vstd::prelude::*;

verus! {

/// The mathematical identity of a service-port pairing: namespace, name and
/// optional port, compared structurally over all three fields.
///
/// A `None` port (an Ingress backend that names its port instead of
/// numbering it) is a distinct identity from any identity carrying a
/// concrete port number; no name-to-number resolution is attempted.
pub ghost struct ServiceIdentity {
    pub namespace: Seq<char>,
    pub name: Seq<char>,
    pub port: Option<i32>,
}

/// A service-port pairing referenced or published by a Kubernetes resource.
///
/// Its abstract value is a [`ServiceIdentity`]; equality is structural over
/// namespace, name and port.
#[derive(Clone, Debug)]
pub struct ServiceDetails {
    pub name: String,
    pub namespace: String,
    pub port_number: Option<i32>,
}

impl View for ServiceDetails {
    type V = ServiceIdentity;

    open spec fn view(&self) -> ServiceIdentity {
        ServiceIdentity {
            namespace: self.namespace@,
            name: self.name@,
            port: self.port_number,
        }
    }
}

impl PartialEq for ServiceDetails {
    fn eq(&self, other: &Self) -> (r: bool)
        ensures
            r == (self@ == other@),
    {
        let ports_match = match (self.port_number, other.port_number) {
            (Some(p), Some(q)) => p == q,
            (None, None) => true,
            _ => false,
        };
        let names_match = self.name == other.name;
        let namespaces_match = self.namespace == other.namespace;
        let r = ports_match && names_match && namespaces_match;
        proof {
            assert(ports_match == (self.port_number == other.port_number));
            assert(r ==> self@ == other@);
            assert(self@ == other@ ==> r);
        }
        r
    }
}

impl vstd::std_specs::cmp::PartialEqSpecImpl for ServiceDetails {
    open spec fn obeys_eq_spec() -> bool {
        true
    }

    open spec fn eq_spec(&self, other: &Self) -> bool {
        self.name@ == other.name@ && self.namespace@ == other.namespace@ && self.port_number
            == other.port_number
    }
}

/// The number carried by an optional Ingress backend port; a named or
/// absent port carries none.
pub open spec fn backend_port_number(p: Option<ServiceBackendPort>) -> Option<i32> {
    match p {
        Some(sbp) => sbp.number,
        None => None,
    }
}

/// The identity an Ingress backend references, tagged with the Ingress's
/// own namespace.
pub open spec fn backend_identity(namespace: Seq<char>, b: IngressServiceBackend) -> ServiceIdentity {
    ServiceIdentity { namespace, name: b.name@, port: backend_port_number(b.port) }
}

/// The identity a webhook client configuration references.
pub open spec fn reference_identity(r: ServiceReference) -> ServiceIdentity {
    ServiceIdentity { namespace: r.namespace@, name: r.name@, port: r.port }
}

impl ServiceDetails {
    /// An exact copy; unlike `clone`, its contract states that the copy has
    /// the same fields.
    pub fn duplicate(&self) -> (r: Self)
        ensures
            r == *self,
    {
        ServiceDetails {
            name: self.name.clone(),
            namespace: self.namespace.clone(),
            port_number: self.port_number,
        }
    }

    /// The pairing an Ingress backend references, in the Ingress's own
    /// namespace (Ingress backends are always same-namespace references).
    pub fn from_service_backend(namespace: &String, backend: &IngressServiceBackend) -> (r: Self)
        ensures
            r@ == backend_identity(namespace@, *backend),
    {
        let port_number = match &backend.port {
            Some(p) => p.number,
            None => None,
        };
        ServiceDetails { name: backend.name.clone(), namespace: namespace.clone(), port_number }
    }

    /// The pairing a webhook client configuration references.
    pub fn from_service_reference(reference: &ServiceReference) -> (r: Self)
        ensures
            r@ == reference_identity(*reference),
    {
        ServiceDetails {
            name: reference.name.clone(),
            namespace: reference.namespace.clone(),
            port_number: reference.port,
        }
    }
}

/// The identities of a sequence of service-port pairings.
pub open spec fn ids(v: Seq<ServiceDetails>) -> Seq<ServiceIdentity> {
    v.map_values(|s: ServiceDetails| s@)
}

/// The set of identities held in a sequence of service-port pairings.
pub open spec fn id_set(v: Seq<ServiceDetails>) -> Set<ServiceIdentity> {
    ids(v).to_set()
}

/// Whether some identity in `v` equals `target`.
pub fn contains_service(v: &Vec<ServiceDetails>, target: &ServiceDetails) -> (r: bool)
    ensures
        r == id_set(v@).contains(target@),
{
    let mut i: usize = 0;
    while i < v.len()
        invariant
            i <= v@.len(),
            forall|j: int| 0 <= j < i ==> ids(v@)[j] != target@,
        decreases v@.len() - i,
    {
        if v[i].eq(target) {
            assert(ids(v@)[i as int] == target@);
            assert(ids(v@).contains(target@));
            return true;
        }
        i += 1;
    }
    assert(forall|j: int| 0 <= j < ids(v@).len() ==> ids(v@)[j] != target@);
    assert(!ids(v@).contains(target@));
    false
}

/// Appends `d` unless an equal identity is already present, so that the
/// vector keeps exactly one entry per identity.
pub fn insert_service(v: &mut Vec<ServiceDetails>, d: ServiceDetails)
    requires
        ids(old(v)@).no_duplicates(),
    ensures
        ids(final(v)@).no_duplicates(),
        id_set(final(v)@) == id_set(old(v)@).insert(d@),
{
    let ghost old_ids = ids(v@);
    if !contains_service(v, &d) {
        v.push(d);
        proof {
            assert(ids(v@) =~= old_ids.push(d@));
            lemma_push_to_set(old_ids, d@);
            assert(!old_ids.contains(d@));
            assert forall|i: int, j: int| 0 <= i < j < ids(v@).len() implies ids(v@)[i]
                != ids(v@)[j] by {
                if j < old_ids.len() {
                    assert(old_ids[i] != old_ids[j]);
                } else {
                    assert(ids(v@)[j] == d@);
                    assert(old_ids[i] != d@);
                }
            }
        }
    } else {
        proof {
            assert(id_set(v@) =~= id_set(v@).insert(d@));
        }
    }
}

/// Pushing one element onto a sequence inserts it into the sequence's set.
pub proof fn lemma_push_to_set<A>(s: Seq<A>, x: A)
    ensures
        s.push(x).to_set() == s.to_set().insert(x),
{
    assert forall|y: A| s.push(x).to_set().contains(y)
        <==> s.to_set().insert(x).contains(y) by {
        if s.push(x).contains(y) {
            let i = choose|i: int| 0 <= i < s.push(x).len() && s.push(x)[i] == y;
            if i < s.len() {
                assert(s[i] == y);
                assert(s.contains(y));
            }
        }
        if s.contains(y) {
            let i = choose|i: int| 0 <= i < s.len() && s[i] == y;
            assert(s.push(x)[i] == y);
            assert(s.push(x).contains(y));
        }
        if y == x {
            assert(s.push(x)[s.len() as int] == y);
            assert(s.push(x).contains(y));
        }
    }
    assert(s.push(x).to_set() =~= s.to_set().insert(x));
}

} // verus!
