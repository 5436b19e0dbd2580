//! The configuration of a node, and the rules that it has to keep.

use crate::config::endpoint;
use crate::service_utils::text;
use std::collections::HashSet;
use vstd::prelude::*;
use vstd::string::StringExecFns;

verus! {

broadcast use vstd::std_specs::hash::group_hash_axioms;

/// Configuration validation error
#[derive(Debug)]
pub struct ConfigValidationError {
    pub field: String,
    pub message: String,
}

impl View for ConfigValidationError {
    type V = (Seq<char>, Seq<char>);

    open spec fn view(&self) -> (Seq<char>, Seq<char>) {
        (self.field@, self.message@)
    }
}

/// What a list of errors says.
pub open spec fn errors_view(errors: Seq<ConfigValidationError>) -> Seq<(Seq<char>, Seq<char>)> {
    errors.map_values(|e: ConfigValidationError| e@)
}

/// The line that reports an error.
pub open spec fn error_line(error: (Seq<char>, Seq<char>)) -> Seq<char> {
    "Config validation error in '"@ + error.0 + "': "@ + error.1
}

impl ConfigValidationError {
    pub fn to_string(&self) -> (line: String)
        ensures
            line@ == error_line(self@),
    {
        text::concat4(
            "Config validation error in '",
            self.field.as_str(),
            "': ",
            self.message.as_str(),
        )
    }
}

/// What is said of several errors, one line each.
pub open spec fn report(errors: Seq<(Seq<char>, Seq<char>)>) -> Seq<char>
    decreases errors.len(),
{
    if errors.len() == 0 {
        "Configuration validation failed:\n  - "@
    } else if errors.len() == 1 {
        report(errors.drop_last()) + error_line(errors.last())
    } else {
        report(errors.drop_last()) + "\n  - "@ + error_line(errors.last())
    }
}

/// What is said of several errors, one line each.
pub fn validation_report(errors: &Vec<ConfigValidationError>) -> (text: String)
    ensures
        text@ == report(errors_view(errors@)),
{
    let ghost all = errors_view(errors@);
    let len: usize = errors.len();
    let mut text = "Configuration validation failed:\n  - ".to_owned();
    let mut done: usize = 0;
    assert(all.take(0) =~= Seq::empty());
    while done < len
        invariant
            len == errors.len(),
            all == errors_view(errors@),
            done <= len,
            text@ == report(all.take(done as int)),
        decreases len - done,
    {
        if done > 0 {
            text.append("\n  - ");
        }
        let line = errors[done].to_string();
        text.append(line.as_str());
        proof {
            let longer = all.take(done + 1);
            assert(longer.drop_last() =~= all.take(done as int));
            assert(longer.last() == errors@[done as int]@);
        }
        done = done + 1;
    }
    assert(all.take(len as int) =~= all);
    text
}

#[derive(Debug)]
pub struct ClusterNode {
    pub endpoint: String,
    pub node_id: u32,
}

/// What a [`ClusterNode`] holds.
pub struct NodeView {
    pub endpoint: Seq<char>,
    pub node_id: u32,
}

impl View for ClusterNode {
    type V = NodeView;

    open spec fn view(&self) -> NodeView {
        NodeView { endpoint: self.endpoint@, node_id: self.node_id }
    }
}

impl Clone for ClusterNode {
    fn clone(&self) -> (node: Self)
        ensures
            node@ == self@,
    {
        ClusterNode { endpoint: self.endpoint.clone(), node_id: self.node_id }
    }
}

/// What a list of nodes holds.
pub open spec fn nodes_view(nodes: Seq<ClusterNode>) -> Seq<NodeView> {
    nodes.map_values(|n: ClusterNode| n@)
}

#[derive(Debug)]
pub struct AppConfig {
    pub persistence_dir: String,
    pub metrics_port: u32,
    pub node_id: u32,
    pub cluster_nodes: Vec<ClusterNode>,
    pub max_message_size_bytes: usize,
    pub min_batch_interval_ms: u64,
    pub max_batch_size: u64,
    pub enable_otel_tracing: bool,
    /// Port for inter-cluster communication
    pub cluster_port: u32,
    /// Port for external RPC access
    pub tcp_datastore_port: u32,
}

/// 1 KB minimum
pub const MIN_MESSAGE_SIZE: usize = 1024;

/// 64 MB maximum
pub const MAX_MESSAGE_SIZE: usize = 67108864;

pub const MAX_BATCH_SIZE_LIMIT: u64 = 10_000;

/// 1 minute max
pub const MAX_BATCH_INTERVAL: u64 = 60_000;

pub const MAX_PORT: u32 = 65535;

/// One error if there is something wrong, and none if not.
pub open spec fn error_if(
    wrong: bool,
    field: Seq<char>,
    message: Seq<char>,
) -> Seq<(Seq<char>, Seq<char>)> {
    if wrong {
        seq![(field, message)]
    } else {
        Seq::empty()
    }
}

/// The error of a port that does not exist.
pub open spec fn port_errors(field: Seq<char>, port: u32) -> Seq<(Seq<char>, Seq<char>)> {
    error_if(port > MAX_PORT, field, "Invalid port number: "@ + text::decimal(port as nat))
}

/// Whether an earlier node has the id of the last one.
pub open spec fn last_is_duplicate(nodes: Seq<NodeView>) -> bool {
    exists|i: int| 0 <= i < nodes.len() - 1 && (#[trigger] nodes[i]).node_id == nodes.last().node_id
}

/// The errors of ids that occur again.
pub open spec fn duplicate_errors(nodes: Seq<NodeView>) -> Seq<(Seq<char>, Seq<char>)>
    decreases nodes.len(),
{
    if nodes.len() == 0 {
        Seq::empty()
    } else {
        duplicate_errors(nodes.drop_last()) + error_if(
            last_is_duplicate(nodes),
            "cluster_nodes"@,
            "Duplicate node_id: "@ + text::decimal(nodes.last().node_id as nat),
        )
    }
}

/// The error of an endpoint that is not a socket address.
pub open spec fn endpoint_error(node: NodeView) -> Seq<(Seq<char>, Seq<char>)> {
    if node.endpoint.len() == 0 {
        seq![
            (
                "cluster_nodes"@,
                "Node "@ + text::decimal(node.node_id as nat) + " has empty endpoint"@,
            ),
        ]
    } else {
        error_if(
            !endpoint::is_socket_address(vstd::utf8::encode_utf8(node.endpoint)),
            "cluster_nodes"@,
            "Node "@ + text::decimal(node.node_id as nat) + " has invalid endpoint '"@
                + node.endpoint + "': expected format 'host:port'"@,
        )
    }
}

/// The errors of endpoints that are not socket addresses.
pub open spec fn endpoint_errors(nodes: Seq<NodeView>) -> Seq<(Seq<char>, Seq<char>)>
    decreases nodes.len(),
{
    if nodes.len() == 0 {
        Seq::empty()
    } else {
        endpoint_errors(nodes.drop_last()) + endpoint_error(nodes.last())
    }
}

impl AppConfig {
    /// What is wrong with the sizes.
    pub open spec fn size_errors(self) -> Seq<(Seq<char>, Seq<char>)> {
        error_if(
            self.max_message_size_bytes < MIN_MESSAGE_SIZE,
            "max_message_size_bytes"@,
            "Must be at least "@ + text::decimal(MIN_MESSAGE_SIZE as nat) + " bytes, got "@
                + text::decimal(self.max_message_size_bytes as nat),
        ) + error_if(
            self.max_message_size_bytes > MAX_MESSAGE_SIZE,
            "max_message_size_bytes"@,
            "Must be at most "@ + text::decimal(MAX_MESSAGE_SIZE as nat) + " bytes, got "@
                + text::decimal(self.max_message_size_bytes as nat),
        ) + error_if(self.max_batch_size == 0, "max_batch_size"@, "Must be greater than 0"@)
            + error_if(
            self.max_batch_size > MAX_BATCH_SIZE_LIMIT,
            "max_batch_size"@,
            "Must be at most "@ + text::decimal(MAX_BATCH_SIZE_LIMIT as nat) + ", got "@
                + text::decimal(self.max_batch_size as nat),
        ) + error_if(
            self.min_batch_interval_ms > MAX_BATCH_INTERVAL,
            "min_batch_interval_ms"@,
            "Must be at most "@ + text::decimal(MAX_BATCH_INTERVAL as nat) + "ms, got "@
                + text::decimal(self.min_batch_interval_ms as nat),
        )
    }

    /// What is wrong with the nodes.
    pub open spec fn topology_errors(self) -> Seq<(Seq<char>, Seq<char>)> {
        duplicate_errors(nodes_view(self.cluster_nodes@)) + endpoint_errors(
            nodes_view(self.cluster_nodes@),
        )
    }

    /// All that is wrong with the configuration.
    pub open spec fn errors(self) -> Seq<(Seq<char>, Seq<char>)> {
        self.size_errors() + port_errors("metrics_port"@, self.metrics_port) + port_errors(
            "cluster_port"@,
            self.cluster_port,
        ) + port_errors("tcp_datastore_port"@, self.tcp_datastore_port) + self.topology_errors()
    }
}

fn push_error(errors: &mut Vec<ConfigValidationError>, wrong: bool, field: &str, message: String)
    ensures
        errors_view(final(errors)@) == errors_view(old(errors)@) + error_if(
            wrong,
            field@,
            message@,
        ),
{
    if wrong {
        let error = ConfigValidationError { field: field.to_owned(), message };
        errors.push(error);
        assert(errors_view(errors@) =~= errors_view(old(errors)@) + seq![(field@, message@)]);
    } else {
        assert(errors_view(errors@) =~= errors_view(old(errors)@) + Seq::empty());
    }
}

fn push_port_error(errors: &mut Vec<ConfigValidationError>, field: &str, port: u32)
    ensures
        errors_view(final(errors)@) == errors_view(old(errors)@) + port_errors(field@, port),
{
    let number = text::decimal_text(port as u64);
    push_error(
        errors,
        port > MAX_PORT,
        field,
        text::concat2("Invalid port number: ", number.as_str()),
    );
}

impl AppConfig {
    /// Validates the configuration and returns a list of errors if any.
    pub fn validate(&self) -> (result: Result<(), Vec<ConfigValidationError>>)
        ensures
            result is Ok <==> self.errors().len() == 0,
            result matches Err(errors) ==> errors_view(errors@) == self.errors(),
    {
        let mut errors: Vec<ConfigValidationError> = Vec::new();
        assert(errors_view(errors@) =~= Seq::empty());
        self.validate_sizes(&mut errors);
        assert(errors_view(errors@) =~= self.size_errors());

        // Validate port ranges
        push_port_error(&mut errors, "metrics_port", self.metrics_port);
        push_port_error(&mut errors, "cluster_port", self.cluster_port);
        push_port_error(&mut errors, "tcp_datastore_port", self.tcp_datastore_port);

        // Validate cluster topology
        self.validate_cluster_topology(&mut errors);
        assert(errors_view(errors@) =~= self.errors());
        if errors.len() == 0 {
            Ok(())
        } else {
            Err(errors)
        }
    }

    fn validate_sizes(&self, errors: &mut Vec<ConfigValidationError>)
        ensures
            errors_view(final(errors)@) == errors_view(old(errors)@) + self.size_errors(),
    {
        // Validate max_message_size_bytes range
        let size = text::decimal_text(self.max_message_size_bytes as u64);
        let min_size = text::decimal_text(MIN_MESSAGE_SIZE as u64);
        let max_size = text::decimal_text(MAX_MESSAGE_SIZE as u64);
        push_error(
            errors,
            self.max_message_size_bytes < MIN_MESSAGE_SIZE,
            "max_message_size_bytes",
            text::concat4("Must be at least ", min_size.as_str(), " bytes, got ", size.as_str()),
        );
        push_error(
            errors,
            self.max_message_size_bytes > MAX_MESSAGE_SIZE,
            "max_message_size_bytes",
            text::concat4("Must be at most ", max_size.as_str(), " bytes, got ", size.as_str()),
        );

        // Validate max_batch_size range
        let batch = text::decimal_text(self.max_batch_size);
        let max_batch = text::decimal_text(MAX_BATCH_SIZE_LIMIT);
        push_error(
            errors,
            self.max_batch_size == 0,
            "max_batch_size",
            "Must be greater than 0".to_owned(),
        );
        push_error(
            errors,
            self.max_batch_size > MAX_BATCH_SIZE_LIMIT,
            "max_batch_size",
            text::concat4("Must be at most ", max_batch.as_str(), ", got ", batch.as_str()),
        );

        // Validate min_batch_interval_ms range
        let interval = text::decimal_text(self.min_batch_interval_ms);
        let max_interval = text::decimal_text(MAX_BATCH_INTERVAL);
        push_error(
            errors,
            self.min_batch_interval_ms > MAX_BATCH_INTERVAL,
            "min_batch_interval_ms",
            text::concat4("Must be at most ", max_interval.as_str(), "ms, got ", interval.as_str()),
        );
        assert(errors_view(errors@) =~= errors_view(old(errors)@) + self.size_errors());
    }

    fn validate_cluster_topology(&self, errors: &mut Vec<ConfigValidationError>)
        ensures
            errors_view(final(errors)@) == errors_view(old(errors)@) + self.topology_errors(),
    {
        let ghost start = errors_view(errors@);
        let ghost nodes = nodes_view(self.cluster_nodes@);
        let len: usize = self.cluster_nodes.len();

        // Check for duplicate node IDs
        let mut seen_ids: HashSet<u32> = HashSet::new();
        let mut done: usize = 0;
        assert(nodes.take(0) =~= Seq::empty());
        assert(start + duplicate_errors(nodes.take(0)) =~= start);
        while done < len
            invariant
                len == self.cluster_nodes.len(),
                nodes == nodes_view(self.cluster_nodes@),
                done <= len,
                forall|id: u32|
                    seen_ids@.contains(id) <==> exists|i: int|
                        0 <= i < done && (#[trigger] nodes[i]).node_id == id,
                errors_view(errors@) == start + duplicate_errors(nodes.take(done as int)),
            decreases len - done,
        {
            let node_id: u32 = self.cluster_nodes[done].node_id;
            let number = text::decimal_text(node_id as u64);
            let ghost before = seen_ids@;
            let ghost longer = nodes.take(done + 1);
            proof {
                assert(longer.drop_last() =~= nodes.take(done as int));
                assert(longer.last() == nodes[done as int]);
                assert(nodes[done as int].node_id == node_id);
                if before.contains(node_id) {
                    let i = choose|i: int|
                        0 <= i < done && (#[trigger] nodes[i]).node_id == node_id;
                    assert(longer[i].node_id == node_id);
                } else if last_is_duplicate(longer) {
                    let i = choose|i: int|
                        0 <= i < longer.len() - 1 && (#[trigger] longer[i]).node_id
                            == longer.last().node_id;
                    assert(nodes[i].node_id == node_id);
                }
                assert(before.contains(node_id) == last_is_duplicate(longer));
            }
            let is_new: bool = seen_ids.insert(node_id);
            push_error(
                errors,
                !is_new,
                "cluster_nodes",
                text::concat2("Duplicate node_id: ", number.as_str()),
            );
            proof {
                assert forall|id: u32|
                    seen_ids@.contains(id) <==> exists|i: int|
                        0 <= i < done + 1 && (#[trigger] nodes[i]).node_id == id by {
                    if before.contains(id) {
                        let i = choose|i: int|
                            0 <= i < done && (#[trigger] nodes[i]).node_id == id;
                        assert(0 <= i < done + 1 && nodes[i].node_id == id);
                    }
                    if id == node_id {
                        assert(0 <= done < done + 1 && nodes[done as int].node_id == id);
                    }
                }
                assert(start + duplicate_errors(longer) =~= errors_view(errors@));
            }
            done = done + 1;
        }
        assert(nodes.take(len as int) =~= nodes);

        // Validate endpoint format
        let ghost middle = start + duplicate_errors(nodes);
        done = 0;
        assert(middle + endpoint_errors(nodes.take(0)) =~= middle);
        while done < len
            invariant
                len == self.cluster_nodes.len(),
                nodes == nodes_view(self.cluster_nodes@),
                done <= len,
                errors_view(errors@) == middle + endpoint_errors(nodes.take(done as int)),
            decreases len - done,
        {
            let node = &self.cluster_nodes[done];
            let ghost longer = nodes.take(done + 1);
            assert(longer.drop_last() =~= nodes.take(done as int));
            assert(longer.last() == node@);
            push_endpoint_error(errors, node);
            assert(middle + endpoint_errors(longer) =~= errors_view(errors@));
            done = done + 1;
        }
        assert(errors_view(errors@) =~= start + self.topology_errors());
    }

    /// Returns a safe representation of the config for logging (hides sensitive data if any)
    pub fn safe_display(&self) -> (text: String)
        ensures
            text@ == "AppConfig { node_id: "@ + text::decimal(self.node_id as nat)
                + ", cluster_port: "@ + text::decimal(self.cluster_port as nat)
                + ", metrics_port: "@ + text::decimal(self.metrics_port as nat)
                + ", tcp_datastore_port: "@ + text::decimal(self.tcp_datastore_port as nat)
                + ", cluster_nodes: "@ + text::decimal(self.cluster_nodes@.len())
                + " nodes, max_message_size_bytes: "@ + text::decimal(
                self.max_message_size_bytes as nat,
            ) + ", max_batch_size: "@ + text::decimal(self.max_batch_size as nat)
                + ", enable_otel_tracing: "@ + (if self.enable_otel_tracing {
                "true"@
            } else {
                "false"@
            }) + " }"@,
    {
        let mut text = "AppConfig { node_id: ".to_owned();
        text::push_decimal(&mut text, self.node_id as u64);
        text.append(", cluster_port: ");
        text::push_decimal(&mut text, self.cluster_port as u64);
        text.append(", metrics_port: ");
        text::push_decimal(&mut text, self.metrics_port as u64);
        text.append(", tcp_datastore_port: ");
        text::push_decimal(&mut text, self.tcp_datastore_port as u64);
        text.append(", cluster_nodes: ");
        let count: usize = self.cluster_nodes.len();
        text::push_decimal(&mut text, count as u64);
        text.append(" nodes, max_message_size_bytes: ");
        text::push_decimal(&mut text, self.max_message_size_bytes as u64);
        text.append(", max_batch_size: ");
        text::push_decimal(&mut text, self.max_batch_size);
        text.append(", enable_otel_tracing: ");
        text.append(
            if self.enable_otel_tracing {
                "true"
            } else {
                "false"
            },
        );
        text.append(" }");
        text
    }
}

fn push_endpoint_error(errors: &mut Vec<ConfigValidationError>, node: &ClusterNode)
    ensures
        errors_view(final(errors)@) == errors_view(old(errors)@) + endpoint_error(node@),
{
    let number = text::decimal_text(node.node_id as u64);
    let bytes: &[u8] = node.endpoint.as_str().as_bytes();
    proof {
        lemma_empty_text(node.endpoint@);
    }
    if bytes.len() == 0 {
        push_error(
            errors,
            true,
            "cluster_nodes",
            text::concat3("Node ", number.as_str(), " has empty endpoint"),
        );
    } else {
        let mut message = text::concat4(
            "Node ",
            number.as_str(),
            " has invalid endpoint '",
            node.endpoint.as_str(),
        );
        message.append("': expected format 'host:port'");
        push_error(
            errors,
            !endpoint::parses_as_socket_address(node.endpoint.as_str()),
            "cluster_nodes",
            message,
        );
    }
}

/// A text is empty exactly if it has no bytes.
proof fn lemma_empty_text(text: Seq<char>)
    ensures
        text.len() == 0 <==> vstd::utf8::encode_utf8(text).len() == 0,
{
    vstd::utf8::encode_utf8_decode_utf8(text);
    if text.len() == 0 {
        assert(vstd::utf8::encode_utf8(text).len() == 0);
    }
    if vstd::utf8::encode_utf8(text).len() == 0 {
        assert(vstd::utf8::decode_utf8(vstd::utf8::encode_utf8(text)).len() == 0);
    }
}

/// Whether a node has an id of its own, and an endpoint that is a socket address.
pub open spec fn are_valid_nodes(nodes: Seq<NodeView>) -> bool {
    &&& forall|i: int, j: int|
        0 <= i < j < nodes.len() ==> (#[trigger] nodes[i]).node_id != (#[trigger] nodes[j]).node_id
    &&& forall|i: int| 0 <= i < nodes.len() ==> has_valid_endpoint(#[trigger] nodes[i])
}

/// Whether the endpoint of a node is a socket address.
pub open spec fn has_valid_endpoint(node: NodeView) -> bool {
    node.endpoint.len() > 0 && endpoint::is_socket_address(
        vstd::utf8::encode_utf8(node.endpoint),
    )
}

proof fn lemma_duplicate_errors(nodes: Seq<NodeView>)
    ensures
        duplicate_errors(nodes).len() == 0 <==> forall|i: int, j: int|
            0 <= i < j < nodes.len() ==> (#[trigger] nodes[i]).node_id != (
            #[trigger] nodes[j]).node_id,
    decreases nodes.len(),
{
    if nodes.len() > 0 {
        let fewer = nodes.drop_last();
        lemma_duplicate_errors(fewer);
        let last = nodes.len() - 1;
        if last_is_duplicate(nodes) {
            let i = choose|i: int|
                0 <= i < nodes.len() - 1 && (#[trigger] nodes[i]).node_id == nodes.last().node_id;
            assert(nodes[i].node_id == nodes[last].node_id);
        } else {
            assert forall|i: int, j: int| 0 <= i < j < fewer.len() implies (
            #[trigger] fewer[i]).node_id != (#[trigger] fewer[j]).node_id <==> nodes[i].node_id
                != nodes[j].node_id by {}
            if duplicate_errors(nodes).len() == 0 {
                assert forall|i: int, j: int| 0 <= i < j < nodes.len() implies (
                #[trigger] nodes[i]).node_id != (#[trigger] nodes[j]).node_id by {
                    if j < last {
                        assert(fewer[i].node_id != fewer[j].node_id);
                    }
                }
            } else {
                let (i, j) = choose|i: int, j: int|
                    0 <= i < j < fewer.len() && (#[trigger] fewer[i]).node_id == (
                    #[trigger] fewer[j]).node_id;
                assert(nodes[i].node_id == nodes[j].node_id);
            }
        }
    }
}

proof fn lemma_endpoint_errors(nodes: Seq<NodeView>)
    ensures
        endpoint_errors(nodes).len() == 0 <==> forall|i: int|
            0 <= i < nodes.len() ==> has_valid_endpoint(#[trigger] nodes[i]),
    decreases nodes.len(),
{
    if nodes.len() > 0 {
        let fewer = nodes.drop_last();
        lemma_endpoint_errors(fewer);
        let last = nodes.len() - 1;
        if endpoint_errors(nodes).len() == 0 {
            assert forall|i: int| 0 <= i < nodes.len() implies has_valid_endpoint(
                #[trigger] nodes[i],
            ) by {
                if i < last {
                    assert(has_valid_endpoint(fewer[i]));
                }
            }
        } else if has_valid_endpoint(nodes[last]) {
            let i = choose|i: int| 0 <= i < fewer.len() && !has_valid_endpoint(#[trigger] fewer[i]);
            assert(!has_valid_endpoint(nodes[i]));
        }
    }
}

/// A configuration is accepted exactly if its sizes and its ports are in range
/// and its nodes have ids of their own and valid endpoints.
pub proof fn law_accepted_configurations(config: AppConfig)
    ensures
        config.errors().len() == 0 <==> {
            &&& MIN_MESSAGE_SIZE <= config.max_message_size_bytes <= MAX_MESSAGE_SIZE
            &&& 0 < config.max_batch_size <= MAX_BATCH_SIZE_LIMIT
            &&& config.min_batch_interval_ms <= MAX_BATCH_INTERVAL
            &&& config.metrics_port <= MAX_PORT
            &&& config.cluster_port <= MAX_PORT
            &&& config.tcp_datastore_port <= MAX_PORT
            &&& are_valid_nodes(nodes_view(config.cluster_nodes@))
        },
{
    lemma_duplicate_errors(nodes_view(config.cluster_nodes@));
    lemma_endpoint_errors(nodes_view(config.cluster_nodes@));
}

/// A configuration is accepted if, and only if, a message has between a kilobyte and
/// 64 megabytes, a batch between one and ten thousand writes, at most a minute lies
/// between two batches, every port is one that there is, and every node has an id of
/// its own and an endpoint.
pub proof fn law_accepted_configurations_in_numbers(config: AppConfig)
    ensures
        config.errors().len() == 0 <==> {
            &&& 1024 <= config.max_message_size_bytes <= 64 * 1024 * 1024
            &&& 1 <= config.max_batch_size <= 10_000
            &&& config.min_batch_interval_ms <= 60_000
            &&& config.metrics_port <= 65535
            &&& config.cluster_port <= 65535
            &&& config.tcp_datastore_port <= 65535
            &&& forall|i: int, j: int|
                0 <= i < j < config.cluster_nodes@.len() ==> (
                #[trigger] config.cluster_nodes@[i]).node_id != (
                #[trigger] config.cluster_nodes@[j]).node_id
            &&& forall|i: int|
                0 <= i < config.cluster_nodes@.len() ==> endpoint::is_socket_address(
                    vstd::utf8::encode_utf8((#[trigger] config.cluster_nodes@[i]).endpoint@),
                ) && config.cluster_nodes@[i].endpoint@.len() > 0
        },
{
    law_accepted_configurations(config);
    let nodes = nodes_view(config.cluster_nodes@);
    if are_valid_nodes(nodes) {
        assert forall|i: int, j: int| 0 <= i < j < config.cluster_nodes@.len() implies (
        #[trigger] config.cluster_nodes@[i]).node_id != (
        #[trigger] config.cluster_nodes@[j]).node_id by {
            assert(nodes[i].node_id != nodes[j].node_id);
        }
        assert forall|i: int| 0 <= i < config.cluster_nodes@.len() implies
            endpoint::is_socket_address(
            vstd::utf8::encode_utf8((#[trigger] config.cluster_nodes@[i]).endpoint@),
        ) && config.cluster_nodes@[i].endpoint@.len() > 0 by {
            assert(has_valid_endpoint(nodes[i]));
        }
    }
    if !are_valid_nodes(nodes) {
        if forall|i: int| 0 <= i < nodes.len() ==> has_valid_endpoint(#[trigger] nodes[i]) {
            let (i, j) = choose|i: int, j: int|
                0 <= i < j < nodes.len() && (#[trigger] nodes[i]).node_id == (
                #[trigger] nodes[j]).node_id;
            assert(config.cluster_nodes@[i].node_id == config.cluster_nodes@[j].node_id);
        } else {
            let i = choose|i: int|
                0 <= i < nodes.len() && !has_valid_endpoint(#[trigger] nodes[i]);
            assert(config.cluster_nodes@[i].endpoint@ == nodes[i].endpoint);
        }
    }
}

} // verus!
