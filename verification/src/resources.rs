//! Plain-data models of the slices of the Kubernetes resource schemas that
//! the detection reads: webhook configurations, Ingresses and Services.
//!
//! Every field the algorithm consults is held as a plain value, so that the
//! extraction rules can be stated and verified over these types directly.
//! Fields that Kubernetes leaves optional stay optional here; the extraction
//! rules say what an absent field contributes (nothing, or a default).

use vstd::prelude::*;

verus! {

/// The name and namespace of a resource, both optional as in the Kubernetes
/// object metadata.
#[derive(Clone)]
pub struct ObjectMeta {
    pub name: Option<String>,
    pub namespace: Option<String>,
}

impl Default for ObjectMeta {
    fn default() -> (r: Self)
        ensures
            r.name is None,
            r.namespace is None,
    {
        ObjectMeta { name: None, namespace: None }
    }
}

/// The resource's namespace, with an absent namespace read as the empty
/// string.
pub open spec fn meta_namespace_or_empty(m: ObjectMeta) -> Seq<char> {
    match m.namespace {
        Some(ns) => ns@,
        None => Seq::<char>::empty(),
    }
}

/// The resource's name, with an absent name read as the empty string.
pub open spec fn meta_name_or_empty(m: ObjectMeta) -> Seq<char> {
    match m.name {
        Some(n) => n@,
        None => Seq::<char>::empty(),
    }
}

/// The backend service a webhook entry calls: part of the entry's client
/// configuration.
#[derive(Clone)]
pub struct ServiceReference {
    pub name: String,
    pub namespace: String,
    pub port: Option<i32>,
    pub path: Option<String>,
}

/// How the API server reaches one webhook: either a service reference or a
/// URL. Entries with a URL and no service reference cannot be exposed as a
/// cluster service and contribute nothing here.
#[derive(Clone)]
pub struct WebhookClientConfig {
    pub service: Option<ServiceReference>,
    pub url: Option<String>,
}

impl Default for WebhookClientConfig {
    fn default() -> (r: Self)
        ensures
            r.service is None,
            r.url is None,
    {
        WebhookClientConfig { service: None, url: None }
    }
}

/// One webhook entry of a `ValidatingWebhookConfiguration`.
#[derive(Clone)]
pub struct ValidatingWebhook {
    pub client_config: WebhookClientConfig,
}

/// One webhook entry of a `MutatingWebhookConfiguration`.
#[derive(Clone)]
pub struct MutatingWebhook {
    pub client_config: WebhookClientConfig,
}

/// A `ValidatingWebhookConfiguration`: the admission resource under review.
#[derive(Clone)]
pub struct ValidatingWebhookConfiguration {
    pub metadata: ObjectMeta,
    pub webhooks: Option<Vec<ValidatingWebhook>>,
}

/// A `MutatingWebhookConfiguration`: the admission resource under review.
#[derive(Clone)]
pub struct MutatingWebhookConfiguration {
    pub metadata: ObjectMeta,
    pub webhooks: Option<Vec<MutatingWebhook>>,
}

/// The port of an Ingress backend service: numbered, or named (a named port
/// carries no number and stays unresolved here).
#[derive(Clone)]
pub struct ServiceBackendPort {
    pub name: Option<String>,
    pub number: Option<i32>,
}

impl Default for ServiceBackendPort {
    fn default() -> (r: Self)
        ensures
            r.name is None,
            r.number is None,
    {
        ServiceBackendPort { name: None, number: None }
    }
}

/// An Ingress backend given as a service name and port.
#[derive(Clone)]
pub struct IngressServiceBackend {
    pub name: String,
    pub port: Option<ServiceBackendPort>,
}

/// An Ingress backend; only service-typed backends are read.
#[derive(Clone)]
pub struct IngressBackend {
    pub service: Option<IngressServiceBackend>,
}

impl Default for IngressBackend {
    fn default() -> (r: Self)
        ensures
            r.service is None,
    {
        IngressBackend { service: None }
    }
}

/// One path of an Ingress HTTP rule, routed to a backend.
#[derive(Clone)]
pub struct HTTPIngressPath {
    pub backend: IngressBackend,
    pub path: Option<String>,
    pub path_type: String,
}

/// The HTTP paths of one Ingress rule.
#[derive(Clone)]
pub struct HTTPIngressRuleValue {
    pub paths: Vec<HTTPIngressPath>,
}

/// One Ingress rule; only its HTTP paths reference backends.
#[derive(Clone)]
pub struct IngressRule {
    pub http: Option<HTTPIngressRuleValue>,
}

impl Default for IngressRule {
    fn default() -> (r: Self)
        ensures
            r.http is None,
    {
        IngressRule { http: None }
    }
}

/// The spec of an Ingress: an optional default backend and optional rules.
#[derive(Clone)]
pub struct IngressSpec {
    pub default_backend: Option<IngressBackend>,
    pub rules: Option<Vec<IngressRule>>,
}

impl Default for IngressSpec {
    fn default() -> (r: Self)
        ensures
            r.default_backend is None,
            r.rules is None,
    {
        IngressSpec { default_backend: None, rules: None }
    }
}

/// An Ingress resource: an external HTTP route to backend services of its
/// own namespace.
#[derive(Clone)]
pub struct Ingress {
    pub metadata: ObjectMeta,
    pub spec: Option<IngressSpec>,
}

impl Default for Ingress {
    fn default() -> (r: Self)
        ensures
            r.metadata.name is None,
            r.metadata.namespace is None,
            r.spec is None,
    {
        Ingress { metadata: ObjectMeta { name: None, namespace: None }, spec: None }
    }
}

/// One declared port of a Service.
#[derive(Clone)]
pub struct ServicePort {
    pub port: i32,
}

/// The spec of a Service: its type (`ClusterIP` when absent) and declared
/// ports.
#[derive(Clone)]
pub struct ServiceSpec {
    pub type_: Option<String>,
    pub ports: Option<Vec<ServicePort>>,
}

impl Default for ServiceSpec {
    fn default() -> (r: Self)
        ensures
            r.type_ is None,
            r.ports is None,
    {
        ServiceSpec { type_: None, ports: None }
    }
}

/// A Service resource.
#[derive(Clone)]
pub struct Service {
    pub metadata: ObjectMeta,
    pub spec: Option<ServiceSpec>,
}

impl Default for Service {
    fn default() -> (r: Self)
        ensures
            r.metadata.name is None,
            r.metadata.namespace is None,
            r.spec is None,
    {
        Service { metadata: ObjectMeta { name: None, namespace: None }, spec: None }
    }
}

} // verus!
