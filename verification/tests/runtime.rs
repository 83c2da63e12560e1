//! Runtime behavior: codec round trips, provider scenarios, routing,
//! scheduling, validation and the network facade.
use wafl::codec::{decode, encode, CodecError, TypeTag, Value};
use wafl::network::{Network, NetworkError};
use wafl::packet::{Entity, Packet};
use wafl::router::{Edge, RouterState};
use wafl::scheduler::{dispatch, execute_schematic, get_list, job, registry_signatures, test_component_job, Registry};
use wafl::schematic::{NodeDef, SchematicModel, validate_model};
use wafl::signature::{assignable, ComponentSignature, PortSignature};
use wafl::providers::ProviderError;
use wafl::signature::HostedType;
use wafl::wire::{hosted_type_from_wire, output_kind_into_packet, packet_into_wire, WireComponent, WireData};

fn text(s: &str) -> Value {
    Value::Text(s.to_string())
}

fn text_bytes(s: &str) -> Vec<u8> {
    encode(&text(s), &TypeTag::Text).unwrap()
}

fn data_payload(entries: &[(&str, &str)]) -> Vec<(String, Packet)> {
    entries
        .iter()
        .map(|(k, v)| (k.to_string(), Packet::Data(text_bytes(v))))
        .collect()
}

fn expect_text(p: &Packet) -> String {
    match p {
        Packet::Data(bytes) => match decode(bytes, &TypeTag::Text).unwrap() {
            Value::Text(s) => s,
            other => panic!("expected a text value, got {:?}", other),
        },
        other => panic!("expected a data packet, got {:?}", other),
    }
}

#[test]
fn codec_round_trip_scalars() {
    let cases = vec![
        (Value::Text("hello".to_string()), TypeTag::Text),
        (Value::Raw(vec![0, 1, 2, 255]), TypeTag::Raw),
        (Value::Int64(-42), TypeTag::Int64),
        (Value::Uint64(u64::MAX), TypeTag::Uint64),
        (Value::Float64Bits(0x3ff0_0000_0000_0000), TypeTag::Float64),
        (Value::Boolean(true), TypeTag::Boolean),
    ];
    for (v, t) in cases {
        let bytes = encode(&v, &t).unwrap();
        let back = decode(&bytes, &t).unwrap();
        let again = encode(&back, &t).unwrap();
        assert_eq!(bytes, again);
    }
}

#[test]
fn codec_round_trip_nested() {
    let v = Value::ValueMap(vec![
        ("k1".to_string(), Value::ValueList(vec![text("a"), Value::Int64(7)])),
        (
            "k2".to_string(),
            Value::Structured(
                "point".to_string(),
                vec![("x".to_string(), Value::Uint64(3)), ("y".to_string(), Value::Uint64(4))],
            ),
        ),
    ]);
    let bytes = encode(&v, &TypeTag::MapOf).unwrap();
    let back = decode(&bytes, &TypeTag::MapOf).unwrap();
    assert_eq!(encode(&back, &TypeTag::MapOf).unwrap(), bytes);
    let any = decode(&bytes, &TypeTag::Any).unwrap();
    assert_eq!(encode(&any, &TypeTag::Any).unwrap(), bytes);
}

#[test]
fn codec_tag_mismatch_is_type_error() {
    let bytes = encode(&text("hello"), &TypeTag::Text).unwrap();
    assert!(matches!(decode(&bytes, &TypeTag::Uint64), Err(CodecError::TypeError)));
    assert!(matches!(decode(&bytes, &TypeTag::ListOf), Err(CodecError::TypeError)));
    let v = Value::Uint64(5);
    let n = encode(&v, &TypeTag::Uint64).unwrap();
    assert!(matches!(decode(&n, &TypeTag::Text), Err(CodecError::TypeError)));
    assert!(matches!(encode(&v, &TypeTag::Text), Err(CodecError::TypeError)));
}

#[test]
fn codec_truncated_is_malformed() {
    let mut bytes = encode(&text("hello"), &TypeTag::Text).unwrap();
    bytes.pop();
    assert!(matches!(decode(&bytes, &TypeTag::Text), Err(CodecError::Malformed)));
    let empty: Vec<u8> = Vec::new();
    assert!(matches!(decode(&empty, &TypeTag::Any), Err(CodecError::Malformed)));
}

#[test]
fn request() {
    let mut reg = Registry::new();
    let input = "some_input";
    let payload = data_payload(&[("input", input)]);
    let outputs = dispatch(&mut reg, &"test-component".to_string(), &payload).unwrap();
    println!("Received payload from [{}]", outputs[0].port);
    let payload_out = expect_text(&outputs[0].packet);
    println!("outputs: {:?}", payload_out);
    assert_eq!(payload_out, "TEST: some_input");
    assert!(matches!(outputs[1].packet, Packet::Done));
}

#[test]
fn list() {
    // The components this provider exposes, with their declared interfaces.
    let sigs = registry_signatures();
    println!("list response : {:?}", sigs.len());
    let provider_name = "test-vino-provider";
    assert!(!provider_name.is_empty());
    for name in ["error", "test-component"] {
        let sig = sigs.iter().find(|(n, _)| n == name).unwrap();
        assert_eq!(sig.1.inputs[0].name, "input");
        assert_eq!(sig.1.outputs[0].name, "output");
    }
    let hosted = get_list();
    assert_eq!(hosted.len(), sigs.len());
    assert!(hosted.iter().all(|h| matches!(h, HostedType::Component(_))));
}

fn known_signatures() -> Vec<(String, ComponentSignature)> {
    let string_port = |n: &str| PortSignature::new(n.to_string(), "string".to_string());
    let simple = |name: &str| ComponentSignature {
        name: name.to_string(),
        inputs: vec![string_port("input")],
        outputs: vec![string_port("output")],
    };
    vec![
        ("test-component".to_string(), simple("test-component")),
        ("error".to_string(), simple("error")),
        ("reverse".to_string(), simple("reverse")),
    ]
}

fn add_item(reg: &mut Registry, document_id: &str, collection_id: &str, document: &str) {
    let payload = data_payload(&[
        ("document_id", document_id),
        ("collection_id", collection_id),
        ("document", document),
    ]);
    let outputs = dispatch(reg, &"add-item".to_string(), &payload).unwrap();
    println!("payload from [{}]: {:?}", outputs[0].port, outputs[0].packet);
    let doc_id = expect_text(&outputs[0].packet);
    assert_eq!(doc_id, document_id);
}

fn get_item(reg: &mut Registry, document_id: &str, collection_id: &str) -> String {
    let payload = data_payload(&[("document_id", document_id), ("collection_id", collection_id)]);
    let outputs = dispatch(reg, &"get-item".to_string(), &payload).unwrap();
    expect_text(&outputs[0].packet)
}

fn list_items(reg: &mut Registry, collection_id: &str) -> Vec<String> {
    let payload = data_payload(&[("collection_id", collection_id)]);
    let outputs = dispatch(reg, &"list-items".to_string(), &payload).unwrap();
    match &outputs[0].packet {
        Packet::Data(bytes) => match decode(bytes, &TypeTag::ListOf).unwrap() {
            Value::ValueList(vals) => vals
                .into_iter()
                .map(|v| match v {
                    Value::Text(s) => s,
                    other => panic!("expected text, got {:?}", other),
                })
                .collect(),
            other => panic!("expected a list, got {:?}", other),
        },
        other => panic!("expected data, got {:?}", other),
    }
}

#[test]
fn request_add_item() {
    let mut reg = Registry::new();
    add_item(&mut reg, "some_doc_id", "some_collection_id", "This is my document");
}

#[test]
fn request_get_item() {
    let mut reg = Registry::new();
    let document_id = "some_doc_id";
    let collection_id = "some_collection_id";
    let document = "This is my document";
    add_item(&mut reg, document_id, collection_id, document);
    let doc = get_item(&mut reg, document_id, collection_id);
    println!("Doc is {}", doc);
    assert_eq!(doc, document);
}

#[test]
fn request_list_items() {
    let mut reg = Registry::new();
    let collection_id = "some_collection_id";
    add_item(&mut reg, "doc_id_1", collection_id, "content 1");
    add_item(&mut reg, "doc_id_2", collection_id, "content 2");
    let docs = list_items(&mut reg, collection_id);
    assert_eq!(docs.len(), 2);
    assert_eq!(docs, vec!["doc_id_1".to_string(), "doc_id_2".to_string()]);
}

#[test]
fn auth_flow() {
    let mut reg = Registry::new();
    let created = dispatch(
        &mut reg,
        &"create-user".to_string(),
        &data_payload(&[("username", "jane"), ("user_id", "u1"), ("password", "p")]),
    )
    .unwrap();
    assert_eq!(expect_text(&created[0].packet), "u1");
    let session = dispatch(
        &mut reg,
        &"authenticate".to_string(),
        &data_payload(&[("username", "jane"), ("password", "p"), ("session", "sess")]),
    )
    .unwrap();
    assert_eq!(expect_text(&session[0].packet), "sess");
    let validated = dispatch(
        &mut reg,
        &"validate-session".to_string(),
        &data_payload(&[("session", "sess")]),
    )
    .unwrap();
    assert_eq!(expect_text(&validated[0].packet), "u1");
    let missing = dispatch(
        &mut reg,
        &"has-permission".to_string(),
        &data_payload(&[("user_id", "u1"), ("permission", "nope")]),
    );
    assert!(missing.is_err());
}

#[test]
fn auth_bad_password_fails() {
    let mut reg = Registry::new();
    dispatch(
        &mut reg,
        &"create-user".to_string(),
        &data_payload(&[("username", "jane"), ("user_id", "u1"), ("password", "p")]),
    )
    .unwrap();
    let denied = dispatch(
        &mut reg,
        &"authenticate".to_string(),
        &data_payload(&[("username", "jane"), ("password", "wrong"), ("session", "s")]),
    );
    assert!(denied.is_err());
}

#[test]
fn reverse_job_reverses() {
    assert_eq!(job(&"hello".to_string()), "olleh");
    assert_eq!(job(&"".to_string()), "");
    assert_eq!(test_component_job(&"some_input".to_string()), "TEST: some_input");
}

#[test]
fn router_preserves_per_edge_order() {
    let mut router = RouterState::new();
    router.add_buffer(2, "input".to_string(), false, Vec::new());
    let sent = vec!["a", "b", "c"];
    for s in &sent {
        router
            .deliver(2, &"input".to_string(), Packet::Data(text_bytes(s)))
            .unwrap();
    }
    let mut seen = Vec::new();
    for _ in 0..3 {
        match router.drain_one(0).unwrap() {
            p => seen.push(expect_text(&p)),
        }
    }
    assert_eq!(seen, sent);
    assert!(!router.error_latch);
}

#[test]
fn router_latches_bracket_mismatch() {
    let mut router = RouterState::new();
    router.add_buffer(2, "input".to_string(), false, Vec::new());
    router.deliver(2, &"input".to_string(), Packet::CloseBracket).unwrap();
    assert!(router.error_latch);
}

#[test]
fn router_balanced_brackets_stay_clean() {
    let mut router = RouterState::new();
    router.add_buffer(2, "input".to_string(), false, Vec::new());
    let port = "input".to_string();
    router.deliver(2, &port, Packet::OpenBracket).unwrap();
    router.deliver(2, &port, Packet::Data(text_bytes("x"))).unwrap();
    router.deliver(2, &port, Packet::CloseBracket).unwrap();
    router.deliver(2, &port, Packet::Done).unwrap();
    assert!(!router.error_latch);
}

#[test]
fn router_latches_done_with_open_bracket() {
    let mut router = RouterState::new();
    router.add_buffer(2, "input".to_string(), false, Vec::new());
    let port = "input".to_string();
    router.deliver(2, &port, Packet::OpenBracket).unwrap();
    router.deliver(2, &port, Packet::Done).unwrap();
    assert!(router.error_latch);
}

fn string_port(n: &str) -> PortSignature {
    PortSignature::new(n.to_string(), "string".to_string())
}

fn fan_out_model() -> SchematicModel {
    let node = |c: &str| NodeDef { provider: "native".to_string(), component: c.to_string() };
    SchematicModel {
        name: "fan-out".to_string(),
        nodes: vec![node(""), node(""), node("reverse"), node("reverse")],
        edges: vec![
            Edge { from_node: 0, from_port: "input".to_string(), to_node: 2, to_port: "input".to_string() },
            Edge { from_node: 0, from_port: "input".to_string(), to_node: 3, to_port: "input".to_string() },
            Edge { from_node: 2, from_port: "output".to_string(), to_node: 1, to_port: "a".to_string() },
            Edge { from_node: 3, from_port: "output".to_string(), to_node: 1, to_port: "b".to_string() },
        ],
        inputs: vec![string_port("input")],
        outputs: vec![string_port("a"), string_port("b")],
        defaults: Vec::new(),
    }
}

#[test]
fn fan_out_copies_to_both_ports() {
    let model = fan_out_model();
    let mut reg = Registry::new();
    let payload = vec![("input".to_string(), text_bytes("x"))];
    let outcome = execute_schematic(&model, &mut reg, &payload, 100);
    assert!(outcome.completed);
    assert!(!outcome.error);
    for port in ["a", "b"] {
        let data = outcome
            .output
            .iter()
            .find(|pp| pp.port == port && matches!(pp.packet, Packet::Data(_)))
            .unwrap();
        assert_eq!(expect_text(&data.packet), "x");
        assert!(outcome
            .output
            .iter()
            .any(|pp| pp.port == port && matches!(pp.packet, Packet::Done)));
    }
}

#[test]
fn starved_schematic_times_out() {
    let node = |c: &str| NodeDef { provider: "native".to_string(), component: c.to_string() };
    let model = SchematicModel {
        name: "stuck".to_string(),
        nodes: vec![node(""), node(""), node("reverse")],
        edges: vec![
            Edge { from_node: 0, from_port: "input".to_string(), to_node: 2, to_port: "input".to_string() },
            Edge { from_node: 2, from_port: "output".to_string(), to_node: 1, to_port: "output".to_string() },
        ],
        inputs: vec![string_port("input")],
        outputs: vec![string_port("output")],
        defaults: Vec::new(),
    };
    let mut reg = Registry::new();
    let payload: Vec<(String, Vec<u8>)> = Vec::new();
    let outcome = execute_schematic(&model, &mut reg, &payload, 100);
    assert!(!outcome.completed);
    assert!(outcome.error);
    assert!(outcome.timed_out);
    match &outcome.output.last().unwrap().packet {
        Packet::Error(msg) => assert_eq!(msg, "timeout"),
        other => panic!("expected a terminal error, got {:?}", other),
    }
    assert_eq!(outcome.output.len(), 1);
}

#[test]
fn validation_accepts_well_typed_edges() {
    let model = fan_out_model();
    assert!(validate_model(&model, &known_signatures()).is_ok());
}

#[test]
fn validation_reports_every_bad_edge() {
    let mut model = fan_out_model();
    model.edges[0].to_port = "no_such_port".to_string();
    let bad = validate_model(&model, &known_signatures()).unwrap_err();
    assert_eq!(bad, vec![0]);
    // A producer typed `bytes` cannot feed a `string` consumer.
    let mut sigs = known_signatures();
    sigs[2].1.outputs[0].type_string = "bytes".to_string();
    let model2 = fan_out_model();
    let bad2 = validate_model(&model2, &sigs).unwrap_err();
    assert_eq!(bad2, vec![2, 3]);
}

#[test]
fn assignable_widens_over_any() {
    assert!(assignable(&"string".to_string(), &"string".to_string()));
    assert!(assignable(&"string".to_string(), &"any".to_string()));
    assert!(!assignable(&"string".to_string(), &"bytes".to_string()));
}

#[test]
fn network_request_runs_schematic() {
    let (seed, pk) = wafl::claims::new_keypair(&wafl::claims::KeyType::Service);
    let mut network = Network::new(vec![fan_out_model()], &seed).unwrap();
    assert_eq!(network.uid, pk);
    assert!(matches!(
        network.request(&"fan-out".to_string(), Entity::component("caller"), &Vec::new()),
        Err(NetworkError::NotStarted)
    ));
    network.init(&known_signatures()).unwrap();
    let schematics = network.list_schematics();
    assert_eq!(schematics.len(), 1);
    assert_eq!(schematics[0].name, "fan-out");
    let payload = vec![("input".to_string(), text_bytes("x"))];
    let (invocation, outcome) = network
        .request(&"fan-out".to_string(), Entity::component("caller"), &payload)
        .unwrap();
    assert!(outcome.completed);
    assert_eq!(invocation.id, 0);
    assert!(matches!(invocation.origin, Entity::Component(_)));
    assert!(matches!(&invocation.target, Entity::Schematic(n) if n == "fan-out"));
    assert_eq!(invocation.network_id, network.uid);
    // The next invocation draws a fresh id.
    let (second, _) = network
        .request(&"fan-out".to_string(), Entity::component("caller"), &payload)
        .unwrap();
    assert_eq!(second.id, 1);
    let missing = network.request(&"nope".to_string(), Entity::component("caller"), &payload);
    assert!(matches!(missing, Err(NetworkError::SchematicNotFound(_))));
}

#[test]
fn network_init_rejects_ill_typed_definition() {
    let (seed, _) = wafl::claims::new_keypair(&wafl::claims::KeyType::Service);
    let mut model = fan_out_model();
    model.edges[2].to_port = "undeclared".to_string();
    let mut network = Network::new(vec![model], &seed).unwrap();
    match network.init(&known_signatures()) {
        Err(NetworkError::InitializationFailed(bad)) => {
            assert_eq!(bad.len(), 1);
            assert_eq!(bad[0].0, 0);
            assert_eq!(bad[0].1, vec![2]);
        }
        other => panic!("expected initialization to fail, got {:?}", other),
    }
}

#[test]
fn network_rejects_invalid_seed() {
    assert!(matches!(
        Network::new(Vec::new(), &"not a seed".to_string()),
        Err(NetworkError::InvalidSeed)
    ));
}

#[test]
fn wire_round_trip_is_byte_exact() {
    let mut reg = Registry::new();
    add_item(&mut reg, "d1", "c", "x");
    let outputs = dispatch(
        &mut reg,
        &"list-items".to_string(),
        &data_payload(&[("collection_id", "c")]),
    )
    .unwrap();
    let direct_bytes: Vec<Vec<u8>> = outputs
        .iter()
        .filter_map(|pp| match &pp.packet {
            Packet::Data(b) => Some(b.clone()),
            _ => None,
        })
        .collect();
    let mut transported = Vec::new();
    for pp in outputs {
        let wire = packet_into_wire(pp.packet);
        let back = output_kind_into_packet(Some(wire)).unwrap();
        if let Packet::Data(b) = back {
            transported.push(b);
        }
    }
    assert_eq!(direct_bytes, transported);
}

#[test]
fn wire_signals_and_errors_map_exactly() {
    assert!(matches!(output_kind_into_packet(Some(WireData::Signal(0))), Some(Packet::Done)));
    assert!(matches!(
        output_kind_into_packet(Some(WireData::Signal(1))),
        Some(Packet::OpenBracket)
    ));
    assert!(matches!(
        output_kind_into_packet(Some(WireData::Signal(2))),
        Some(Packet::CloseBracket)
    ));
    match output_kind_into_packet(Some(WireData::Signal(9))) {
        Some(Packet::Error(m)) => assert_eq!(m, "Sent an invalid signal"),
        other => panic!("expected an error, got {:?}", other),
    }
    match output_kind_into_packet(None) {
        Some(Packet::Error(m)) => assert_eq!(m, "Response received without output"),
        other => panic!("expected an error, got {:?}", other),
    }
    assert!(matches!(
        output_kind_into_packet(Some(WireData::Invalid(true))),
        Some(Packet::Invalid)
    ));
    // A diagnostic frame carries nothing into the stream.
    assert!(output_kind_into_packet(Some(WireData::Test(vec![1]))).is_none());
}

#[test]
fn entity_urls_are_compact() {
    assert_eq!(Entity::component("add-item").url(), "cmpt://add-item");
    assert_eq!(Entity::schematic("fan-out").url(), "schm://fan-out");
}

#[test]
fn stats_report_exact_call_counts() {
    let mut reg = Registry::new();
    assert!(reg.get_stats(None).is_empty());
    assert_eq!(reg.get_stats(Some("add-item".to_string()))[0].num_calls, 0);
    add_item(&mut reg, "d1", "c", "x");
    add_item(&mut reg, "d2", "c", "y");
    let _ = dispatch(&mut reg, &"list-items".to_string(), &data_payload(&[("collection_id", "c")]));
    let adds = reg.get_stats(Some("add-item".to_string()));
    assert_eq!(adds.len(), 1);
    assert_eq!(adds[0].num_calls, 2);
    assert_eq!(adds[0].execution_duration.average, 0);
    let lists = reg.get_stats(Some("list-items".to_string()));
    assert_eq!(lists[0].num_calls, 1);
    assert_eq!(reg.get_stats(Some("no-such".to_string()))[0].num_calls, 0);
    assert_eq!(reg.get_stats(None).len(), 2);
}

#[test]
fn hosted_type_from_wire_by_kind() {
    let make = |kind: i32| WireComponent {
        name: "thing".to_string(),
        kind,
        inputs: vec![PortSignature::new("input".to_string(), "string".to_string())],
        outputs: vec![PortSignature::new("output".to_string(), "string".to_string())],
        providers: Vec::new(),
    };
    match hosted_type_from_wire(make(0)).unwrap() {
        HostedType::Component(c) => {
            assert_eq!(c.name, "thing");
            assert_eq!(c.inputs[0].name, "input");
        }
        other => panic!("expected a component, got {:?}", other),
    }
    match hosted_type_from_wire(make(1)).unwrap() {
        HostedType::Schematic(s) => assert_eq!(s.name, "thing"),
        other => panic!("expected a schematic, got {:?}", other),
    }
    assert!(hosted_type_from_wire(make(7)).is_err());
}

#[test]
fn list_users_counts_registered_users() {
    let mut reg = Registry::new();
    let users_before = dispatch(&mut reg, &"list-users".to_string(), &Vec::new()).unwrap();
    let count = |outputs: &[wafl::packet::PortPacket]| match &outputs[0].packet {
        Packet::Data(bytes) => match decode(bytes, &TypeTag::ListOf).unwrap() {
            Value::ValueList(vals) => vals.len(),
            other => panic!("expected a list, got {:?}", other),
        },
        other => panic!("expected data, got {:?}", other),
    };
    let before = count(&users_before);
    dispatch(
        &mut reg,
        &"create-user".to_string(),
        &data_payload(&[("username", "jane"), ("user_id", "u1"), ("password", "p")]),
    )
    .unwrap();
    let users_after = dispatch(&mut reg, &"list-users".to_string(), &Vec::new()).unwrap();
    assert_eq!(count(&users_after), before + 1);
}

#[test]
fn update_and_list_permissions() {
    let mut reg = Registry::new();
    dispatch(
        &mut reg,
        &"create-user".to_string(),
        &data_payload(&[("username", "jane"), ("user_id", "u1"), ("password", "p")]),
    )
    .unwrap();
    let perms = encode(
        &Value::ValueList(vec![text("can_do")]),
        &TypeTag::ListOf,
    )
    .unwrap();
    let payload = vec![
        ("user_id".to_string(), Packet::Data(text_bytes("u1"))),
        ("permissions".to_string(), Packet::Data(perms)),
    ];
    let updated = dispatch(&mut reg, &"update-permissions".to_string(), &payload).unwrap();
    assert_eq!(updated[0].port, "permissions");
    let listed = dispatch(
        &mut reg,
        &"list-permissions".to_string(),
        &data_payload(&[("user_id", "u1")]),
    )
    .unwrap();
    match &listed[0].packet {
        Packet::Data(bytes) => match decode(bytes, &TypeTag::ListOf).unwrap() {
            Value::ValueList(vals) => {
                assert_eq!(vals.len(), 1);
                match &vals[0] {
                    Value::Text(s) => assert_eq!(s, "can_do"),
                    other => panic!("expected text, got {:?}", other),
                }
            }
            other => panic!("expected a list, got {:?}", other),
        },
        other => panic!("expected data, got {:?}", other),
    }
    let held = dispatch(
        &mut reg,
        &"has-permission".to_string(),
        &data_payload(&[("user_id", "u1"), ("permission", "can_do")]),
    )
    .unwrap();
    assert_eq!(expect_text(&held[0].packet), "u1");
}

#[test]
fn get_id_and_remove_user() {
    let mut reg = Registry::new();
    dispatch(
        &mut reg,
        &"create-user".to_string(),
        &data_payload(&[("username", "jane"), ("user_id", "u1"), ("password", "p")]),
    )
    .unwrap();
    let id = dispatch(&mut reg, &"get-id".to_string(), &data_payload(&[("username", "jane")]))
        .unwrap();
    assert_eq!(expect_text(&id[0].packet), "u1");
    let removed = dispatch(
        &mut reg,
        &"remove-user".to_string(),
        &data_payload(&[("username", "jane")]),
    )
    .unwrap();
    assert_eq!(expect_text(&removed[0].packet), "u1");
    let gone = dispatch(&mut reg, &"get-id".to_string(), &data_payload(&[("username", "jane")]));
    assert!(gone.is_err());
}

#[test]
fn unknown_component_is_not_found() {
    let mut reg = Registry::new();
    match dispatch(&mut reg, &"no-such".to_string(), &Vec::new()) {
        Err(ProviderError::ComponentNotFound(c)) => assert_eq!(c, "no-such"),
        other => panic!("expected not-found, got {:?}", other),
    }
}

#[test]
fn error_component_always_fails() {
    let mut reg = Registry::new();
    match dispatch(&mut reg, &"error".to_string(), &data_payload(&[("input", "x")])) {
        Err(ProviderError::ProviderFailure(m)) => assert_eq!(m, "This always errors"),
        other => panic!("expected a provider failure, got {:?}", other),
    }
}

#[test]
fn test_vino_provider_request() {
    let mut reg = Registry::new();
    let input = "some_input";
    let invocation_id = "INVOCATION_ID";
    let payload = data_payload(&[("input", input)]);
    let outputs = dispatch(&mut reg, &"test-component".to_string(), &payload)
        .expect("request failed");
    println!("Received payload from [{}]", outputs[0].port);
    let payload_out = expect_text(&outputs[0].packet);
    println!("outputs: {:?}", payload_out);
    assert_eq!(payload_out, "TEST: some_input");
    let _ = invocation_id;
}

#[test]
fn test_vino_provider_list() {
    let response = get_list();
    println!("list response : {:?}", response.len());
    assert!(!response.is_empty());
}

#[test]
fn traffic_after_done_is_discarded() {
    let mut router = RouterState::new();
    router.add_buffer(2, "input".to_string(), false, Vec::new());
    let port = "input".to_string();
    router.deliver(2, &port, Packet::Data(text_bytes("a"))).unwrap();
    router.deliver(2, &port, Packet::Done).unwrap();
    router.deliver(2, &port, Packet::Data(text_bytes("late"))).unwrap();
    assert!(!router.error_latch);
    let first = router.drain_one(0).unwrap();
    assert_eq!(expect_text(&first), "a");
    let second = router.drain_one(0).unwrap();
    assert!(matches!(second, Packet::Done));
    // The late packet was dropped, not queued.
    assert!(router.drain_one(0).is_none());
}

#[test]
fn declared_default_feeds_an_unwired_port() {
    let node = |c: &str| NodeDef { provider: "native".to_string(), component: c.to_string() };
    let model = SchematicModel {
        name: "defaulted".to_string(),
        nodes: vec![node(""), node(""), node("test-component")],
        edges: vec![
            Edge { from_node: 0, from_port: "input".to_string(), to_node: 2, to_port: "input".to_string() },
            Edge { from_node: 0, from_port: "unused".to_string(), to_node: 2, to_port: "extra".to_string() },
            Edge { from_node: 2, from_port: "output".to_string(), to_node: 1, to_port: "output".to_string() },
        ],
        inputs: vec![string_port("input")],
        outputs: vec![string_port("output")],
        defaults: vec![(2, "extra".to_string(), text_bytes("fallback"))],
    };
    let mut reg = Registry::new();
    // Only `input` is supplied; `extra` is satisfied by its default.
    let payload = vec![("input".to_string(), text_bytes("x"))];
    let outcome = execute_schematic(&model, &mut reg, &payload, 100);
    assert!(outcome.completed);
    let data = outcome
        .output
        .iter()
        .find(|pp| matches!(pp.packet, Packet::Data(_)))
        .unwrap();
    assert_eq!(expect_text(&data.packet), "TEST: x");
}


#[test]
fn passthrough_edge_carries_payload_bytes() {
    // A payload entry wired straight from the input side to the output side
    // appears on the output channel byte for byte.
    let node = |c: &str| NodeDef { provider: "native".to_string(), component: c.to_string() };
    let model = SchematicModel {
        name: "direct".to_string(),
        nodes: vec![node(""), node("")],
        edges: vec![Edge {
            from_node: 0,
            from_port: "input".to_string(),
            to_node: 1,
            to_port: "output".to_string(),
        }],
        inputs: vec![string_port("input")],
        outputs: vec![string_port("output")],
        defaults: Vec::new(),
    };
    let mut reg = Registry::new();
    let bytes = text_bytes("payload");
    let payload = vec![("input".to_string(), bytes.clone())];
    let outcome = execute_schematic(&model, &mut reg, &payload, 10);
    assert!(outcome.completed);
    assert!(!outcome.error);
    let carried = outcome
        .output
        .iter()
        .find(|pp| pp.port == "output" && matches!(&pp.packet, Packet::Data(b) if *b == bytes));
    assert!(carried.is_some());
}

#[test]
fn init_failure_lists_every_offending_schematic() {
    let (seed, _) = wafl::claims::new_keypair(&wafl::claims::KeyType::Service);
    let mut bad1 = fan_out_model();
    bad1.name = "bad1".to_string();
    bad1.edges[0].to_port = "nope".to_string();
    let mut bad2 = fan_out_model();
    bad2.name = "bad2".to_string();
    bad2.edges[3].to_port = "nope".to_string();
    let good = fan_out_model();
    let mut network = Network::new(vec![bad1, good, bad2], &seed).unwrap();
    match network.init(&known_signatures()) {
        Err(NetworkError::InitializationFailed(bad)) => {
            assert_eq!(bad.len(), 2);
            assert_eq!(bad[0].0, 0);
            assert_eq!(bad[0].1, vec![0]);
            assert_eq!(bad[1].0, 2);
            assert_eq!(bad[1].1, vec![3]);
        }
        other => panic!("expected initialization to fail, got {:?}", other),
    }
}
