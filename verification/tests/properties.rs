use std::cell::Cell;

use webhook_exposure::check::{
    AdmissionObject, ClusterResourceReader, QueryError, Verdict, find_webhook_services_exposed,
    validate,
};
use webhook_exposure::resources::{
    HTTPIngressPath, HTTPIngressRuleValue, Ingress, IngressBackend, IngressRule,
    IngressServiceBackend, IngressSpec, ObjectMeta, Service, ServiceBackendPort, ServicePort,
    ServiceReference, ServiceSpec, ValidatingWebhook, ValidatingWebhookConfiguration,
    WebhookClientConfig,
};
use webhook_exposure::service_details::ServiceDetails;
use webhook_exposure::service_finder::ServiceFinder;

struct FakeReader {
    expected_namespace: String,
    ingresses: Vec<Ingress>,
    services: Vec<Service>,
    ingress_calls: Cell<usize>,
    service_calls: Cell<usize>,
}

impl FakeReader {
    fn new(expected_namespace: &str, ingresses: Vec<Ingress>, services: Vec<Service>) -> Self {
        FakeReader {
            expected_namespace: expected_namespace.to_string(),
            ingresses,
            services,
            ingress_calls: Cell::new(0),
            service_calls: Cell::new(0),
        }
    }
}

impl ClusterResourceReader for FakeReader {
    fn list_ingresses(&self, namespace: &str) -> Result<Vec<Ingress>, QueryError> {
        self.ingress_calls.set(self.ingress_calls.get() + 1);
        if namespace != self.expected_namespace {
            Err(QueryError::new("namespace mismatch"))
        } else {
            Ok(self.ingresses.clone())
        }
    }

    fn list_services(&self, namespace: &str) -> Result<Vec<Service>, QueryError> {
        self.service_calls.set(self.service_calls.get() + 1);
        if namespace != self.expected_namespace {
            Err(QueryError::new("namespace mismatch"))
        } else {
            Ok(self.services.clone())
        }
    }
}

fn target(namespace: &str, name: &str, port: i32) -> ServiceDetails {
    ServiceDetails {
        name: name.to_string(),
        namespace: namespace.to_string(),
        port_number: Some(port),
    }
}

fn nodeport_service(namespace: &str, name: &str, ports: &[i32]) -> Service {
    Service {
        metadata: ObjectMeta {
            name: Some(name.to_string()),
            namespace: Some(namespace.to_string()),
        },
        spec: Some(ServiceSpec {
            type_: Some("NodePort".to_string()),
            ports: Some(ports.iter().map(|p| ServicePort { port: *p }).collect()),
        }),
    }
}

fn ingress_with_default_backend(namespace: &str, backend_name: &str, port: i32) -> Ingress {
    Ingress {
        metadata: ObjectMeta {
            namespace: Some(namespace.to_string()),
            ..Default::default()
        },
        spec: Some(IngressSpec {
            default_backend: Some(IngressBackend {
                service: Some(IngressServiceBackend {
                    name: backend_name.to_string(),
                    port: Some(ServiceBackendPort {
                        number: Some(port),
                        name: None,
                    }),
                }),
            }),
            ..Default::default()
        }),
        ..Default::default()
    }
}

#[test]
fn service_extraction_yields_one_identity_per_port() {
    let service = nodeport_service("my-namespace", "my-service", &[80, 443, 8080]);
    let found = service.get_services();
    assert_eq!(found.len(), 3);
    assert!(found.contains(&target("my-namespace", "my-service", 80)));
    assert!(found.contains(&target("my-namespace", "my-service", 443)));
    assert!(found.contains(&target("my-namespace", "my-service", 8080)));
}

#[test]
fn extraction_of_partial_resources_yields_nothing() {
    let bare_ingress = Ingress::default();
    assert!(bare_ingress.get_services().is_empty());

    let bare_service = Service::default();
    assert!(bare_service.get_services().is_empty());

    let portless = Service {
        metadata: ObjectMeta {
            name: Some("my-service".to_string()),
            namespace: Some("my-namespace".to_string()),
        },
        spec: Some(ServiceSpec {
            type_: Some("NodePort".to_string()),
            ports: None,
        }),
    };
    assert!(portless.get_services().is_empty());

    let empty_configuration = ValidatingWebhookConfiguration {
        metadata: ObjectMeta::default(),
        webhooks: None,
    };
    assert!(empty_configuration.get_services().is_empty());
}

#[test]
fn url_only_webhook_entries_are_skipped() {
    let configuration = ValidatingWebhookConfiguration {
        metadata: ObjectMeta::default(),
        webhooks: Some(vec![
            ValidatingWebhook {
                client_config: WebhookClientConfig {
                    service: None,
                    url: Some("https://example.invalid/hook".to_string()),
                },
            },
            ValidatingWebhook {
                client_config: WebhookClientConfig {
                    service: Some(ServiceReference {
                        name: "my-service".to_string(),
                        namespace: "my-namespace".to_string(),
                        port: Some(443),
                        path: None,
                    }),
                    url: None,
                },
            },
        ]),
    };
    let found = configuration.get_services();
    assert_eq!(found.len(), 1);
    assert!(found.contains(&target("my-namespace", "my-service", 443)));
}

#[test]
fn duplicate_webhook_references_collapse() {
    let reference = ServiceReference {
        name: "my-service".to_string(),
        namespace: "my-namespace".to_string(),
        port: Some(443),
        path: None,
    };
    let configuration = ValidatingWebhookConfiguration {
        metadata: ObjectMeta::default(),
        webhooks: Some(vec![
            ValidatingWebhook {
                client_config: WebhookClientConfig {
                    service: Some(reference.clone()),
                    url: None,
                },
            },
            ValidatingWebhook {
                client_config: WebhookClientConfig {
                    service: Some(reference.clone()),
                    url: None,
                },
            },
        ]),
    };
    assert_eq!(configuration.get_services().len(), 1);
}

#[test]
fn named_backend_port_is_distinct_from_numbered() {
    let ingress = Ingress {
        metadata: ObjectMeta {
            namespace: Some("my-namespace".to_string()),
            ..Default::default()
        },
        spec: Some(IngressSpec {
            default_backend: Some(IngressBackend {
                service: Some(IngressServiceBackend {
                    name: "my-service".to_string(),
                    port: Some(ServiceBackendPort {
                        name: Some("http".to_string()),
                        number: None,
                    }),
                }),
            }),
            ..Default::default()
        }),
        ..Default::default()
    };
    let found = ingress.get_services();
    assert_eq!(found.len(), 1);
    assert_eq!(found[0].port_number, None);

    // A numbered webhook target is not matched by the named-port backend.
    let targets = vec![target("my-namespace", "my-service", 80)];
    let reader = FakeReader::new("my-namespace", vec![ingress], vec![]);
    let exposed = find_webhook_services_exposed(&reader, &targets).unwrap();
    assert!(exposed.is_empty());
}

#[test]
fn cluster_ip_service_never_contributes() {
    let cluster_ip = Service {
        metadata: ObjectMeta {
            name: Some("my-service".to_string()),
            namespace: Some("my-namespace".to_string()),
        },
        spec: Some(ServiceSpec {
            type_: Some("ClusterIP".to_string()),
            ports: Some(vec![ServicePort { port: 80 }]),
        }),
    };
    let typeless = Service {
        metadata: ObjectMeta {
            name: Some("my-service".to_string()),
            namespace: Some("my-namespace".to_string()),
        },
        spec: Some(ServiceSpec {
            type_: None,
            ports: Some(vec![ServicePort { port: 80 }]),
        }),
    };
    let targets = vec![target("my-namespace", "my-service", 80)];
    let reader = FakeReader::new("my-namespace", vec![], vec![cluster_ip, typeless]);
    let exposed = find_webhook_services_exposed(&reader, &targets).unwrap();
    assert!(exposed.is_empty());
}

#[test]
fn exposure_matching_is_exact_on_port() {
    let targets = vec![target("my-namespace", "my-service", 80)];
    let reader = FakeReader::new(
        "my-namespace",
        vec![],
        vec![nodeport_service("my-namespace", "my-service", &[81])],
    );
    let exposed = find_webhook_services_exposed(&reader, &targets).unwrap();
    assert!(exposed.is_empty());
}

#[test]
fn services_in_different_namespaces_never_cross_match() {
    // The listed Ingress itself carries another namespace in its metadata,
    // so its backend, though equal in name and port, is a different identity.
    let targets = vec![target("my-namespace", "my-service", 80)];
    let foreign = ingress_with_default_backend("other-namespace", "my-service", 80);
    let reader = FakeReader::new("my-namespace", vec![foreign], vec![]);
    let exposed = find_webhook_services_exposed(&reader, &targets).unwrap();
    assert!(exposed.is_empty());
}

#[test]
fn detection_is_idempotent_on_identical_inputs() {
    let targets = vec![
        target("my-namespace", "my-service", 80),
        target("my-namespace", "my-service", 443),
    ];
    let ingress = ingress_with_default_backend("my-namespace", "my-service", 443);
    let nodeport = nodeport_service("my-namespace", "my-service", &[80, 81]);

    let reader = FakeReader::new("my-namespace", vec![ingress], vec![nodeport]);
    let first = find_webhook_services_exposed(&reader, &targets).unwrap();
    let second = find_webhook_services_exposed(&reader, &targets).unwrap();

    assert_eq!(first.len(), 2);
    assert_eq!(first.len(), second.len());
    for d in &first {
        assert!(second.contains(d));
    }
    for d in &second {
        assert!(first.contains(d));
    }
}

#[test]
fn query_failure_aborts_the_whole_detection() {
    // Targets in two namespaces; the reader only answers one of them, so
    // the detection must fail as a whole rather than report a partial view.
    let targets = vec![
        target("my-namespace", "my-service", 80),
        target("other-namespace", "other-service", 80),
    ];
    let reader = FakeReader::new("my-namespace", vec![], vec![]);
    let result = find_webhook_services_exposed(&reader, &targets);
    assert!(result.is_err());
    assert_eq!(result.err().unwrap().message, "namespace mismatch");
}

#[test]
fn validate_accepts_other_kinds_without_querying() {
    let reader = FakeReader::new("my-namespace", vec![], vec![]);
    let verdict = validate(&reader, &AdmissionObject::Other).unwrap();
    assert!(matches!(verdict, Verdict::Accept));
    assert_eq!(reader.ingress_calls.get(), 0);
    assert_eq!(reader.service_calls.get(), 0);
}

#[test]
fn validate_accepts_unexposed_configuration() {
    let configuration = ValidatingWebhookConfiguration {
        metadata: ObjectMeta::default(),
        webhooks: Some(vec![ValidatingWebhook {
            client_config: WebhookClientConfig {
                service: Some(ServiceReference {
                    name: "my-service".to_string(),
                    namespace: "my-namespace".to_string(),
                    port: Some(80),
                    path: None,
                }),
                url: None,
            },
        }]),
    };
    let reader = FakeReader::new("my-namespace", vec![], vec![]);
    let verdict = validate(&reader, &AdmissionObject::Validating(configuration)).unwrap();
    assert!(matches!(verdict, Verdict::Accept));
}

#[test]
fn validate_rejects_exposed_configuration() {
    let configuration = ValidatingWebhookConfiguration {
        metadata: ObjectMeta::default(),
        webhooks: Some(vec![ValidatingWebhook {
            client_config: WebhookClientConfig {
                service: Some(ServiceReference {
                    name: "my-service".to_string(),
                    namespace: "my-namespace".to_string(),
                    port: Some(80),
                    path: None,
                }),
                url: None,
            },
        }]),
    };
    let ingress = ingress_with_default_backend("my-namespace", "my-service", 80);
    let reader = FakeReader::new("my-namespace", vec![ingress], vec![]);
    let verdict = validate(&reader, &AdmissionObject::Validating(configuration)).unwrap();
    match verdict {
        Verdict::Reject(exposed) => {
            assert_eq!(exposed.len(), 1);
            assert_eq!(exposed[0].namespace, "my-namespace");
            assert_eq!(exposed[0].name, "my-service");
            assert_eq!(exposed[0].port_number, Some(80));
        }
        Verdict::Accept => panic!("an exposed webhook service must be rejected"),
    }
}

#[test]
fn empty_target_set_detects_nothing_and_queries_nothing() {
    let reader = FakeReader::new("my-namespace", vec![], vec![]);
    let targets: Vec<ServiceDetails> = Vec::new();
    let exposed = find_webhook_services_exposed(&reader, &targets).unwrap();
    assert!(exposed.is_empty());
    assert_eq!(reader.ingress_calls.get(), 0);
    assert_eq!(reader.service_calls.get(), 0);
}

#[test]
fn validate_accepts_configuration_without_service_references() {
    // Every webhook entry is URL-based, so no service is referenced and no
    // query is issued.
    let configuration = ValidatingWebhookConfiguration {
        metadata: ObjectMeta::default(),
        webhooks: Some(vec![ValidatingWebhook {
            client_config: WebhookClientConfig {
                service: None,
                url: Some("https://example.invalid/hook".to_string()),
            },
        }]),
    };
    let reader = FakeReader::new("my-namespace", vec![], vec![]);
    let verdict = validate(&reader, &AdmissionObject::Validating(configuration)).unwrap();
    assert!(matches!(verdict, Verdict::Accept));
    assert_eq!(reader.ingress_calls.get(), 0);
    assert_eq!(reader.service_calls.get(), 0);
}
