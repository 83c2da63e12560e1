//! Claims issuance, token verification, key naming and wasm module loading.
use wafl::claims::{
    issue_token, new_keypair, public_key_of_seed, verify_token, Claims, ClaimsError, KeyType,
};
use wafl::keys::{choose_key_directory, key_file_name, keypair_type_to_string};
use wafl::packet::{Packet, PortPacket};
use wafl::scheduler::{dispatch, Registry};
use wafl::signature::{ComponentSignature, PortSignature};
use wafl::wasm_module::{embed_claims_bytes, GuestOutcome, guest_call_packets, WapcModule};

fn reverse_interface() -> ComponentSignature {
    ComponentSignature {
        name: "reverse".to_string(),
        inputs: vec![PortSignature::new("input".to_string(), "string".to_string())],
        outputs: vec![PortSignature::new("output".to_string(), "string".to_string())],
    }
}

fn sample_claims(subject: &str) -> Claims {
    Claims {
        issuer: String::new(),
        subject: subject.to_string(),
        issued_at: 1000,
        expires_at: Some(2000),
        not_before: Some(500),
        name: "reverse".to_string(),
        tags: vec!["test".to_string()],
        interface: reverse_interface(),
    }
}

#[test]
fn token_round_trip_verifies() {
    let (seed, pk) = new_keypair(&KeyType::Module);
    let (token, signed) = issue_token(&sample_claims("module-key"), &seed).unwrap();
    assert_eq!(signed.issuer, pk);
    let claims = verify_token(&token, 1500).unwrap();
    assert_eq!(claims.subject, "module-key");
    assert_eq!(claims.issuer, pk);
    assert_eq!(claims.name, "reverse");
    assert_eq!(claims.interface.inputs[0].name, "input");
}

#[test]
fn expired_token_is_rejected() {
    let (seed, _) = new_keypair(&KeyType::Module);
    let (token, _) = issue_token(&sample_claims("m"), &seed).unwrap();
    assert_eq!(verify_token(&token, 2000).unwrap_err(), ClaimsError::Expired);
    assert_eq!(verify_token(&token, 400).unwrap_err(), ClaimsError::NotYetValid);
}

#[test]
fn tampered_token_is_rejected() {
    let (seed, _) = new_keypair(&KeyType::Module);
    let (mut token, _) = issue_token(&sample_claims("m"), &seed).unwrap();
    // Flip one bit inside the signed payload.
    let mid = token.len() / 2;
    token[mid] ^= 1;
    let e = verify_token(&token, 1500).unwrap_err();
    assert!(e == ClaimsError::BadSignature || e == ClaimsError::Malformed);
}

#[test]
fn foreign_signature_is_rejected() {
    let (seed_a, _) = new_keypair(&KeyType::Module);
    let (seed_b, pk_b) = new_keypair(&KeyType::Module);
    let (token_a, signed_a) = issue_token(&sample_claims("m"), &seed_a).unwrap();
    // A payload that claims issuer B but carries A's signature must fail:
    // rebuild the claims under B's issuer key without B's signature.
    let mut forged = sample_claims("m");
    forged.issuer = pk_b.clone();
    let payload = wafl::claims::build_claims_payload(&forged);
    let mut forged_token: Vec<u8> = vec![1];
    let plen = payload.len() as u64;
    forged_token.extend_from_slice(&plen.to_le_bytes());
    forged_token.extend_from_slice(&payload);
    // Reuse A's signature bytes: take the tail of A's token.
    let a_payload = wafl::claims::build_claims_payload(&signed_a);
    let sig_start = 1 + 8 + a_payload.len() + 8;
    let sig = &token_a[sig_start..];
    forged_token.extend_from_slice(&(sig.len() as u64).to_le_bytes());
    forged_token.extend_from_slice(sig);
    assert_eq!(verify_token(&forged_token, 1500).unwrap_err(), ClaimsError::BadSignature);
    let _ = seed_b;
}

fn minimal_module() -> Vec<u8> {
    // Magic and version of a wasm binary, with no sections.
    vec![0, 97, 115, 109, 1, 0, 0, 0]
}

#[test]
fn signed_module_loads_and_reverse_runs() {
    let (seed, _) = new_keypair(&KeyType::Module);
    let (token, _) = issue_token(&sample_claims("module-key"), &seed).unwrap();
    let module = embed_claims_bytes(&minimal_module(), &token).unwrap();
    let loaded = WapcModule::from_slice(&module, 1500).unwrap();
    assert_eq!(loaded.name(), "reverse");
    assert_eq!(loaded.public_key(), "module-key");
    assert_eq!(loaded.id(), "module-key");
    assert_eq!(loaded.tags(), vec!["test".to_string()]);
    // Drive the module's component natively: one input packet in, the
    // reversed value out, then the stream closes.
    let mut reg = Registry::new();
    let input = wafl::codec::encode(
        &wafl::codec::Value::Text("hello".to_string()),
        &wafl::codec::TypeTag::Text,
    )
    .unwrap();
    let payload = vec![("input".to_string(), Packet::Data(input))];
    let outputs = dispatch(&mut reg, &"reverse".to_string(), &payload).unwrap();
    assert_eq!(outputs.len(), 2);
    assert_eq!(outputs[0].port, "output");
    match &outputs[0].packet {
        Packet::Data(b) => {
            match wafl::codec::decode(b, &wafl::codec::TypeTag::Text).unwrap() {
                wafl::codec::Value::Text(s) => assert_eq!(s, "olleh"),
                other => panic!("expected text, got {:?}", other),
            }
        }
        other => panic!("expected data, got {:?}", other),
    }
    assert!(matches!(outputs[1].packet, Packet::Done));
}

#[test]
fn unsigned_module_is_rejected() {
    assert_eq!(
        WapcModule::from_slice(&minimal_module(), 1500).unwrap_err(),
        ClaimsError::Malformed
    );
}

#[test]
fn expired_module_is_rejected() {
    let (seed, _) = new_keypair(&KeyType::Module);
    let (token, _) = issue_token(&sample_claims("m"), &seed).unwrap();
    let module = embed_claims_bytes(&minimal_module(), &token).unwrap();
    assert_eq!(WapcModule::from_slice(&module, 5000).unwrap_err(), ClaimsError::Expired);
}

#[test]
fn tampered_module_is_rejected() {
    let (seed, _) = new_keypair(&KeyType::Module);
    let (token, _) = issue_token(&sample_claims("m"), &seed).unwrap();
    let mut module = embed_claims_bytes(&minimal_module(), &token).unwrap();
    let n = module.len();
    module[n - 1] ^= 0xff;
    assert!(WapcModule::from_slice(&module, 1500).is_err());
}

#[test]
fn guest_success_closes_every_output() {
    let writes = vec![PortPacket {
        port: "output".to_string(),
        packet: Packet::Data(vec![1, 2, 3]),
    }];
    let declared = vec!["output".to_string(), "log".to_string()];
    let packets = guest_call_packets(
        writes,
        &declared,
        &GuestOutcome::Succeeded,
        &"guest call failed".to_string(),
        &"trap: 1".to_string(),
    );
    assert_eq!(packets.len(), 3);
    assert!(matches!(packets[1].packet, Packet::Done));
    assert_eq!(packets[1].port, "output");
    assert!(matches!(packets[2].packet, Packet::Done));
    assert_eq!(packets[2].port, "log");
}

#[test]
fn guest_failure_errors_every_output() {
    let declared = vec!["output".to_string()];
    let packets = guest_call_packets(
        Vec::new(),
        &declared,
        &GuestOutcome::Failed,
        &"guest call failed".to_string(),
        &"trap: 1".to_string(),
    );
    assert_eq!(packets.len(), 2);
    match &packets[0].packet {
        Packet::Error(m) => assert_eq!(m, "guest call failed"),
        other => panic!("expected an error, got {:?}", other),
    }
    assert!(matches!(packets[1].packet, Packet::Done));
}

#[test]
fn guest_trap_aborts_the_stream() {
    let packets = guest_call_packets(
        Vec::new(),
        &vec!["output".to_string()],
        &GuestOutcome::Trapped(7),
        &"guest call failed".to_string(),
        &"trap: 7".to_string(),
    );
    assert_eq!(packets.len(), 1);
    match &packets[0].packet {
        Packet::Error(m) => assert_eq!(m, "trap: 7"),
        other => panic!("expected an error, got {:?}", other),
    }
}

#[test]
fn key_type_names_and_files() {
    assert_eq!(keypair_type_to_string(&KeyType::Account), "account");
    assert_eq!(keypair_type_to_string(&KeyType::Cluster), "cluster");
    assert_eq!(keypair_type_to_string(&KeyType::Service), "service");
    assert_eq!(keypair_type_to_string(&KeyType::Module), "module");
    assert_eq!(keypair_type_to_string(&KeyType::Server), "server");
    assert_eq!(keypair_type_to_string(&KeyType::Operator), "operator");
    assert_eq!(keypair_type_to_string(&KeyType::User), "user");
    assert_eq!(
        key_file_name(&"mymodule".to_string(), &KeyType::Module),
        "mymodule_module.nk"
    );
}

#[test]
fn key_directory_resolution() {
    assert_eq!(
        choose_key_directory(Some("/keys".to_string()), Some("/home/me".to_string())),
        Some("/keys".to_string())
    );
    assert_eq!(
        choose_key_directory(None, Some("/home/me".to_string())),
        Some("/home/me/.wafl/keys".to_string())
    );
    assert_eq!(choose_key_directory(None, None), None);
}

#[test]
fn generated_seed_round_trips() {
    let (seed, pk) = new_keypair(&KeyType::Service);
    assert_eq!(public_key_of_seed(&seed), Some(pk));
    assert_eq!(public_key_of_seed(&"garbage".to_string()), None);
}


#[test]
fn from_token_accepts_a_well_signed_token() {
    let (seed, _) = new_keypair(&KeyType::Module);
    let (token, signed) = issue_token(&sample_claims("module-key"), &seed).unwrap();
    let module = WapcModule::from_token(&token, minimal_module(), 1500).unwrap();
    assert_eq!(module.claims.subject, signed.subject);
    assert_eq!(module.token, token);
    assert_eq!(module.bytes, minimal_module());
    assert_eq!(WapcModule::from_token(&token, minimal_module(), 3000).unwrap_err(), ClaimsError::Expired);
}
