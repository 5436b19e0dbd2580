use kraft_lib::config::config::{validation_report, AppConfig, ClusterNode};
use kraft_lib::config::endpoint::parses_as_socket_address;
use kraft_lib::startup::{config_files, other_nodes, quorum_size, service_name};

fn create_valid_config() -> AppConfig {
    AppConfig {
        persistence_dir: "/tmp/test".to_string(),
        metrics_port: 9090,
        node_id: 1,
        cluster_nodes: vec![
            ClusterNode { endpoint: "127.0.0.1:50051".to_string(), node_id: 2 },
            ClusterNode { endpoint: "127.0.0.1:50052".to_string(), node_id: 3 },
        ],
        max_message_size_bytes: 1024 * 1024, // 1MB
        min_batch_interval_ms: 100,
        max_batch_size: 1000,
        enable_otel_tracing: false,
        cluster_port: 50050,
        tcp_datastore_port: 8080,
    }
}

#[test]
fn test_validate_message_size_too_small() {
    let mut config = create_valid_config();
    config.max_message_size_bytes = 100; // Below MIN_MESSAGE_SIZE (1024)

    let result = config.validate();
    assert!(result.is_err());
    let errors = result.unwrap_err();
    assert!(errors.iter().any(|e| e.field == "max_message_size_bytes"));
    assert_eq!(errors[0].message, "Must be at least 1024 bytes, got 100");
}

#[test]
fn test_validate_message_size_too_large() {
    let mut config = create_valid_config();
    config.max_message_size_bytes = 100 * 1024 * 1024; // Above MAX_MESSAGE_SIZE (64MB)

    let result = config.validate();
    assert!(result.is_err());
    let errors = result.unwrap_err();
    assert!(errors.iter().any(|e| e.field == "max_message_size_bytes"));
    assert_eq!(errors[0].message, "Must be at most 67108864 bytes, got 104857600");
}

#[test]
fn test_validate_batch_size_zero() {
    let mut config = create_valid_config();
    config.max_batch_size = 0;

    let result = config.validate();
    assert!(result.is_err());
    let errors = result.unwrap_err();
    assert!(errors.iter().any(|e| e.field == "max_batch_size"));
}

#[test]
fn test_validate_batch_size_too_large() {
    let mut config = create_valid_config();
    config.max_batch_size = 20_000; // Above MAX_BATCH_SIZE_LIMIT (10_000)

    let result = config.validate();
    assert!(result.is_err());
    let errors = result.unwrap_err();
    assert!(errors.iter().any(|e| e.field == "max_batch_size"));
}

#[test]
fn test_validate_invalid_port() {
    let mut config = create_valid_config();
    config.metrics_port = 70000; // Invalid port (> 65535)

    let result = config.validate();
    assert!(result.is_err());
    let errors = result.unwrap_err();
    assert!(errors.iter().any(|e| e.field == "metrics_port"));
}

#[test]
fn test_validate_duplicate_node_ids() {
    let mut config = create_valid_config();
    config.cluster_nodes = vec![
        ClusterNode { endpoint: "127.0.0.1:50051".to_string(), node_id: 2 },
        ClusterNode { endpoint: "127.0.0.1:50052".to_string(), node_id: 2 }, // Duplicate!
    ];

    let result = config.validate();
    assert!(result.is_err());
    let errors = result.unwrap_err();
    assert!(errors
        .iter()
        .any(|e| e.field == "cluster_nodes" && e.message.contains("Duplicate")));
}

#[test]
fn test_validate_invalid_endpoint_format() {
    let mut config = create_valid_config();
    config.cluster_nodes = vec![ClusterNode {
        endpoint: "not-a-valid-endpoint".to_string(),
        node_id: 2,
    }];

    let result = config.validate();
    assert!(result.is_err());
    let errors = result.unwrap_err();
    assert!(errors
        .iter()
        .any(|e| e.field == "cluster_nodes" && e.message.contains("invalid endpoint")));
}

#[test]
fn test_validate_empty_endpoint() {
    let mut config = create_valid_config();
    config.cluster_nodes = vec![ClusterNode { endpoint: "".to_string(), node_id: 2 }];

    let result = config.validate();
    assert!(result.is_err());
    let errors = result.unwrap_err();
    assert!(errors
        .iter()
        .any(|e| e.field == "cluster_nodes" && e.message.contains("empty endpoint")));
}

#[test]
fn test_valid_config_passes() {
    let config = create_valid_config();
    let result = config.validate();
    assert!(result.is_ok());
}

#[test]
fn test_safe_display_format() {
    let config = create_valid_config();
    let display = config.safe_display();

    // Should contain key info
    assert!(display.contains("node_id: 1"));
    assert!(display.contains("cluster_port: 50050"));
    assert!(display.contains("2 nodes")); // Cluster size, not full details

    // Should NOT contain full cluster node details
    assert!(!display.contains("127.0.0.1:50051"));

    assert_eq!(
        display,
        "AppConfig { node_id: 1, cluster_port: 50050, metrics_port: 9090, tcp_datastore_port: 8080, \
         cluster_nodes: 2 nodes, max_message_size_bytes: 1048576, max_batch_size: 1000, \
         enable_otel_tracing: false }"
    );
}

#[test]
fn errors_come_in_order_and_with_their_texts() {
    let mut config = create_valid_config();
    config.max_message_size_bytes = 1;
    config.max_batch_size = 10_001;
    config.min_batch_interval_ms = 60_001;
    config.metrics_port = 65536;
    config.cluster_port = 65537;
    config.tcp_datastore_port = 65538;
    config.cluster_nodes = vec![
        ClusterNode { endpoint: "".to_string(), node_id: 7 },
        ClusterNode { endpoint: "x".to_string(), node_id: 7 },
    ];
    let errors = config.validate().unwrap_err();
    let texts: Vec<(String, String)> =
        errors.iter().map(|e| (e.field.clone(), e.message.clone())).collect();
    let expected = vec![
        ("max_message_size_bytes", "Must be at least 1024 bytes, got 1"),
        ("max_batch_size", "Must be at most 10000, got 10001"),
        ("min_batch_interval_ms", "Must be at most 60000ms, got 60001"),
        ("metrics_port", "Invalid port number: 65536"),
        ("cluster_port", "Invalid port number: 65537"),
        ("tcp_datastore_port", "Invalid port number: 65538"),
        ("cluster_nodes", "Duplicate node_id: 7"),
        ("cluster_nodes", "Node 7 has empty endpoint"),
        ("cluster_nodes", "Node 7 has invalid endpoint 'x': expected format 'host:port'"),
    ];
    assert_eq!(texts.len(), expected.len());
    for (text, wanted) in texts.iter().zip(expected) {
        assert_eq!(text.0, wanted.0);
        assert_eq!(text.1, wanted.1);
    }
    assert_eq!(
        errors[3].to_string(),
        "Config validation error in 'metrics_port': Invalid port number: 65536"
    );
}

#[test]
fn report_of_two_errors() {
    let mut config = create_valid_config();
    config.max_batch_size = 0;
    config.cluster_port = 70000;
    let errors = config.validate().unwrap_err();
    assert_eq!(
        validation_report(&errors),
        "Configuration validation failed:\n  \
         - Config validation error in 'max_batch_size': Must be greater than 0\n  \
         - Config validation error in 'cluster_port': Invalid port number: 70000"
    );
}

#[test]
fn limits_themselves_are_accepted() {
    let mut config = create_valid_config();
    config.max_message_size_bytes = 1024;
    config.max_batch_size = 1;
    config.min_batch_interval_ms = 60_000;
    config.metrics_port = 65535;
    assert!(config.validate().is_ok());
    config.max_message_size_bytes = 64 * 1024 * 1024;
    config.max_batch_size = 10_000;
    assert!(config.validate().is_ok());
}

#[test]
fn socket_addresses_are_accepted() {
    for text in [
        "127.0.0.1:50051",
        "0.0.0.0:0",
        "255.255.255.255:65535",
        "1.2.3.4:00080",
        "[::1]:50051",
        "[::]:1",
        "[1:2:3:4:5:6:7:8]:1",
        "[fe80::1%5]:80",
        "[FE80::aB:1]:80",
        "[::ffff:1.2.3.4]:80",
        "[1:2:3:4:5:6:1.2.3.4]:80",
        "[1:2:3:4:5::1.2.3.4]:80",
        "[1:2:3:4:5:6:7::]:80",
    ] {
        assert!(parses_as_socket_address(text), "{}", text);
    }
}

#[test]
fn other_texts_are_no_socket_addresses() {
    for text in [
        "",
        ":",
        "localhost:80",
        "1.2.3.4",
        "1.2.3.4:",
        "1.2.3.4:65536",
        "1.2.3:80",
        "1.2.3.4.5:80",
        "01.2.3.4:80",
        "256.2.3.4:80",
        "1.2.3.4:8x",
        "1.2.3.4:80:90",
        "::1:80",
        "[::1]",
        "[::1]80",
        "[::1:80",
        "[1:2:3:4:5:6:7]:80",
        "[1:2:3:4:5:6:7:8:9]:80",
        "[1::2::3]:80",
        "[:::]:80",
        "[12345::]:80",
        "[g::]:80",
        "[1.2.3.4::]:80",
        "[1:2:3:4:5:6:7:1.2.3.4]:80",
        "[1:2:3:4:5:6::1.2.3.4]:80",
        "[1:2:3:4:5:6:7::8]:80",
        "[fe80::1%]:80",
        "[fe80::1%4294967296]:80",
        "1.2.3.4\u{e9}:80",
    ] {
        assert!(!parses_as_socket_address(text), "{}", text);
    }
}

#[test]
fn quorum_sizes() {
    assert_eq!(quorum_size(0), 0);
    assert_eq!(quorum_size(1), 1);
    assert_eq!(quorum_size(2), 1);
    assert_eq!(quorum_size(3), 2);
    assert_eq!(quorum_size(4), 2);
    assert_eq!(quorum_size(5), 3);
}

#[test]
fn nodes_without_self() {
    let nodes = vec![
        ClusterNode { endpoint: "a".to_string(), node_id: 1 },
        ClusterNode { endpoint: "b".to_string(), node_id: 2 },
        ClusterNode { endpoint: "c".to_string(), node_id: 3 },
    ];
    let others = other_nodes(&nodes, 2);
    assert_eq!(others.len(), 2);
    assert_eq!(others[0].endpoint, "a");
    assert_eq!(others[1].node_id, 3);
}

#[test]
fn files_of_the_configuration() {
    assert_eq!(
        config_files("res"),
        vec![
            "res/application.toml",
            "src/resources/application.toml",
            "./application.toml",
            "res/local.toml",
            "src/resources/local.toml",
            "./local.toml",
        ]
    );
    assert_eq!(service_name(12), "kraft_node_12");
}
