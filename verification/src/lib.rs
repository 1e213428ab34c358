//! Detects admission-controller webhook services that are reachable from
//! outside the cluster's service mesh.
//!
//! A `ValidatingWebhookConfiguration` or `MutatingWebhookConfiguration`
//! names the backend services the API server calls during admission. If an
//! `Ingress`, or a `Service` of type `NodePort` or `LoadBalancer`, publishes
//! the same `namespace/name/port` triple, the webhook endpoint is exposed
//! beyond the trust boundary the admission subsystem assumes, and the
//! configuration must be rejected.
//!
//! The crate models the relevant slices of the Kubernetes resource schemas
//! as plain data ([`resources`]), extracts the service identities each
//! resource references or publishes ([`service_finder`]), and matches the
//! webhook-referenced identities against the published ones, namespace by
//! namespace ([`check`]).

pub mod check;
pub mod resources;
pub mod service_details;
pub mod service_finder;
