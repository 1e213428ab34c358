use std::cell::Cell;

use webhook_exposure::check::{
    ClusterResourceReader, QueryError, exposed_services_across_namespaces,
    find_webhook_services_exposed, find_webhook_services_exposed_by_ingress_inside_of_namespace,
    find_webhook_services_exposed_by_nodeport_loadbalancer_inside_of_namespace,
};
use webhook_exposure::resources::{
    Ingress, IngressBackend, IngressServiceBackend, IngressSpec, ObjectMeta, Service,
    ServiceBackendPort, ServicePort, ServiceSpec,
};
use webhook_exposure::service_details::ServiceDetails;

struct FakeReader {
    expected_namespace: String,
    ingresses: Vec<Ingress>,
    services: Vec<Service>,
    ingress_calls: Cell<usize>,
    service_calls: Cell<usize>,
}

impl FakeReader {
    fn new(expected_namespace: &str, ingresses: Vec<Ingress>, services: Vec<Service>) -> Self {
        FakeReader {
            expected_namespace: expected_namespace.to_string(),
            ingresses,
            services,
            ingress_calls: Cell::new(0),
            service_calls: Cell::new(0),
        }
    }
}

impl ClusterResourceReader for FakeReader {
    fn list_ingresses(&self, namespace: &str) -> Result<Vec<Ingress>, QueryError> {
        self.ingress_calls.set(self.ingress_calls.get() + 1);
        if namespace != self.expected_namespace {
            Err(QueryError::new("namespace mismatch"))
        } else {
            Ok(self.ingresses.clone())
        }
    }

    fn list_services(&self, namespace: &str) -> Result<Vec<Service>, QueryError> {
        self.service_calls.set(self.service_calls.get() + 1);
        let _ = namespace;
        Ok(self.services.clone())
    }
}

#[test]
fn test_find_services_exposed_no_ingress_nor_service_defined() {
    let mut services = Vec::new();
    let expected_namespace = "my-namespace";
    services.push(ServiceDetails {
        name: "my-service".to_string(),
        namespace: expected_namespace.to_string(),
        port_number: Some(80),
    });

    let reader = FakeReader::new(expected_namespace, vec![], vec![]);

    let result = find_webhook_services_exposed(&reader, &services);
    assert!(result.is_ok());
    let exposed_services = result.unwrap();
    assert!(exposed_services.is_empty());
    assert_eq!(reader.ingress_calls.get(), 1);
    assert_eq!(reader.service_calls.get(), 1);
}

#[test]
fn test_find_services_exposed_ingress_nodeport_defined_no_match() {
    let mut services = Vec::new();
    let expected_namespace = "my-namespace";
    services.push(ServiceDetails {
        name: "my-service".to_string(),
        namespace: expected_namespace.to_string(),
        port_number: Some(80),
    });

    let ingress = Ingress {
        metadata: ObjectMeta {
            namespace: Some(expected_namespace.to_string()),
            ..Default::default()
        },
        spec: Some(IngressSpec {
            default_backend: Some(IngressBackend {
                service: Some(IngressServiceBackend {
                    name: "other-service".to_string(),
                    port: Some(ServiceBackendPort {
                        number: Some(80),
                        name: None,
                    }),
                }),
            }),
            ..Default::default()
        }),
        ..Default::default()
    };

    let nodeport = Service {
        metadata: ObjectMeta {
            name: Some("yet-another-service".to_string()),
            namespace: Some(expected_namespace.to_string()),
        },
        spec: Some(ServiceSpec {
            type_: Some("NodePort".to_string()),
            ports: Some(vec![ServicePort { port: 80 }]),
        }),
    };

    let reader = FakeReader::new(expected_namespace, vec![ingress], vec![nodeport]);

    let result = find_webhook_services_exposed(&reader, &services);
    assert!(result.is_ok());
    let exposed_services = result.unwrap();
    assert!(exposed_services.is_empty());
    assert_eq!(reader.ingress_calls.get(), 1);
    assert_eq!(reader.service_calls.get(), 1);
}

#[test]
fn test_find_services_exposed_ingress_defined_match() {
    let mut services = Vec::new();
    let service_name = "my-service";
    let namespace = "my-namespace";
    services.push(ServiceDetails {
        name: service_name.to_string(),
        namespace: namespace.to_string(),
        port_number: Some(80),
    });

    let ingress = Ingress {
        metadata: ObjectMeta {
            namespace: Some(namespace.to_string()),
            ..Default::default()
        },
        spec: Some(IngressSpec {
            default_backend: Some(IngressBackend {
                service: Some(IngressServiceBackend {
                    name: service_name.to_string(),
                    port: Some(ServiceBackendPort {
                        number: Some(80),
                        name: None,
                    }),
                }),
            }),
            ..Default::default()
        }),
        ..Default::default()
    };

    let reader = FakeReader::new(namespace, vec![ingress], vec![]);

    let result = find_webhook_services_exposed(&reader, &services);
    assert!(result.is_ok());
    let exposed_services = result.unwrap();
    assert_eq!(exposed_services.len(), 1);
    assert_eq!(reader.ingress_calls.get(), 1);
    assert_eq!(reader.service_calls.get(), 1);
}

#[test]
fn test_find_services_exposed_nodeport_defined_match() {
    let mut services = Vec::new();
    let service_name = "my-service";
    let expected_namespace = "my-namespace";
    services.push(ServiceDetails {
        name: "my-service".to_string(),
        namespace: expected_namespace.to_string(),
        port_number: Some(80),
    });

    let nodeport = Service {
        metadata: ObjectMeta {
            name: Some(service_name.to_string()),
            namespace: Some(expected_namespace.to_string()),
        },
        spec: Some(ServiceSpec {
            type_: Some("NodePort".to_string()),
            ports: Some(vec![
                // this port should not match
                ServicePort { port: 81 },
                // this port should match
                ServicePort { port: 80 },
            ]),
        }),
    };

    let reader = FakeReader::new(expected_namespace, vec![], vec![nodeport]);

    let result = find_webhook_services_exposed(&reader, &services);
    assert!(result.is_ok());
    let exposed_services = result.unwrap();
    assert_eq!(exposed_services.len(), 1);
    assert_eq!(reader.ingress_calls.get(), 1);
    assert_eq!(reader.service_calls.get(), 1);
}

#[test]
fn test_find_services_exposed_loadbalancer_defined_match() {
    let mut services = Vec::new();
    let service_name = "my-service";
    let expected_namespace = "my-namespace";
    services.push(ServiceDetails {
        name: "my-service".to_string(),
        namespace: expected_namespace.to_string(),
        port_number: Some(80),
    });

    let loadbalancer = Service {
        metadata: ObjectMeta {
            name: Some(service_name.to_string()),
            namespace: Some(expected_namespace.to_string()),
        },
        spec: Some(ServiceSpec {
            type_: Some("LoadBalancer".to_string()),
            ports: Some(vec![ServicePort { port: 80 }]),
        }),
    };

    let reader = FakeReader::new(expected_namespace, vec![], vec![loadbalancer]);

    let result = find_webhook_services_exposed(&reader, &services);
    assert!(result.is_ok());
    let exposed_services = result.unwrap();
    assert_eq!(exposed_services.len(), 1);
    assert_eq!(reader.ingress_calls.get(), 1);
    assert_eq!(reader.service_calls.get(), 1);
}

#[test]
fn ingress_exposure_inside_namespace_intersects_exactly() {
    let namespace = "my-namespace";
    let targets = vec![
        ServiceDetails {
            name: "my-service".to_string(),
            namespace: namespace.to_string(),
            port_number: Some(80),
        },
        ServiceDetails {
            name: "unrelated-service".to_string(),
            namespace: namespace.to_string(),
            port_number: Some(80),
        },
    ];
    let ingress = Ingress {
        metadata: ObjectMeta {
            namespace: Some(namespace.to_string()),
            ..Default::default()
        },
        spec: Some(IngressSpec {
            default_backend: Some(IngressBackend {
                service: Some(IngressServiceBackend {
                    name: "my-service".to_string(),
                    port: Some(ServiceBackendPort {
                        number: Some(80),
                        name: None,
                    }),
                }),
            }),
            ..Default::default()
        }),
        ..Default::default()
    };
    let reader = FakeReader::new(namespace, vec![ingress], vec![]);
    let exposed =
        find_webhook_services_exposed_by_ingress_inside_of_namespace(&reader, &targets, namespace)
            .unwrap();
    assert_eq!(exposed.len(), 1);
    assert!(exposed.contains(&targets[0]));

    let err = find_webhook_services_exposed_by_ingress_inside_of_namespace(
        &reader,
        &targets,
        "wrong-namespace",
    );
    assert!(err.is_err());
}

#[test]
fn nodeport_exposure_inside_namespace_intersects_exactly() {
    let namespace = "my-namespace";
    let targets = vec![
        ServiceDetails {
            name: "my-service".to_string(),
            namespace: namespace.to_string(),
            port_number: Some(80),
        },
        ServiceDetails {
            name: "my-service".to_string(),
            namespace: namespace.to_string(),
            port_number: Some(443),
        },
    ];
    let nodeport = Service {
        metadata: ObjectMeta {
            name: Some("my-service".to_string()),
            namespace: Some(namespace.to_string()),
        },
        spec: Some(ServiceSpec {
            type_: Some("NodePort".to_string()),
            ports: Some(vec![ServicePort { port: 80 }, ServicePort { port: 8080 }]),
        }),
    };
    let reader = FakeReader::new(namespace, vec![], vec![nodeport]);
    let exposed = find_webhook_services_exposed_by_nodeport_loadbalancer_inside_of_namespace(
        &reader,
        &targets,
        namespace,
    )
    .unwrap();
    assert_eq!(exposed.len(), 1);
    assert!(exposed.contains(&targets[0]));
}

#[test]
fn aggregation_unions_per_namespace_intersections() {
    let first = "first-namespace";
    let second = "second-namespace";
    let targets = vec![
        ServiceDetails {
            name: "my-service".to_string(),
            namespace: first.to_string(),
            port_number: Some(80),
        },
        ServiceDetails {
            name: "other-service".to_string(),
            namespace: second.to_string(),
            port_number: Some(443),
        },
        ServiceDetails {
            name: "unreached-service".to_string(),
            namespace: second.to_string(),
            port_number: Some(80),
        },
    ];
    let namespaces = vec![first.to_string(), second.to_string()];
    let ingress = Ingress {
        metadata: ObjectMeta {
            namespace: Some(first.to_string()),
            ..Default::default()
        },
        spec: Some(IngressSpec {
            default_backend: Some(IngressBackend {
                service: Some(IngressServiceBackend {
                    name: "my-service".to_string(),
                    port: Some(ServiceBackendPort {
                        number: Some(80),
                        name: None,
                    }),
                }),
            }),
            ..Default::default()
        }),
        ..Default::default()
    };
    let loadbalancer = Service {
        metadata: ObjectMeta {
            name: Some("other-service".to_string()),
            namespace: Some(second.to_string()),
        },
        spec: Some(ServiceSpec {
            type_: Some("LoadBalancer".to_string()),
            ports: Some(vec![ServicePort { port: 443 }]),
        }),
    };
    let ingress_lists = vec![vec![ingress], vec![]];
    let service_lists = vec![vec![], vec![loadbalancer]];

    let exposed =
        exposed_services_across_namespaces(&namespaces, &ingress_lists, &service_lists, &targets);
    assert_eq!(exposed.len(), 2);
    assert!(exposed.contains(&targets[0]));
    assert!(exposed.contains(&targets[1]));
}
