//! Claims tokens: a compact signed envelope asserting a wasm module's
//! identity, interface and validity window. Payloads are canonical bytes;
//! signatures are Ed25519 through the `nkeys` crate behind trusted wrappers.
use crate::codec::dec_value;
use crate::codec::decode;
use crate::codec::enc_value;
use crate::codec::encode_value_into;
use crate::codec::lemma_dec_enc_value;
use crate::codec::lemma_value_list_view_props;
use crate::codec::lemma_value_pairs_view_props;
use crate::codec::tag_admits;
use crate::codec::value_list_view;
use crate::codec::value_pairs_view;
use crate::codec::view_wf;
use crate::codec::CodecError;
use crate::codec::TypeTag;
use crate::codec::Value;
use crate::codec::ValueView;
use crate::signature::ComponentSignature;
use crate::signature::PortSignature;
use vstd::bytes::*;
use vstd::prelude::*;

verus! {

/// What an encoded seed denotes a valid key pair (nkeys::KeyPair::from_seed
/// succeeds on it).
pub uninterp spec fn seed_valid(seed: Seq<char>) -> bool;

/// The encoded public key of the key pair an encoded seed denotes.
pub uninterp spec fn pk_of(seed: Seq<char>) -> Seq<char>;

/// The Ed25519 signature the key pair of `seed` produces on `msg`; Ed25519
/// signing is deterministic, so this depends on the arguments alone.
pub uninterp spec fn sig_of(seed: Seq<char>, msg: Seq<u8>) -> Seq<u8>;

/// Whether Ed25519 verification of `sig` on `msg` under the encoded public
/// key `pk` succeeds (false also when `pk` itself does not decode).
pub uninterp spec fn verify_ok(pk: Seq<char>, msg: Seq<u8>, sig: Seq<u8>) -> bool;

/// The key types, each gating which subjects a key may sign.
#[derive(Clone, Copy, PartialEq, Eq, Structural, Debug)]
pub enum KeyType {
    Account,
    Cluster,
    Service,
    Module,
    Server,
    Operator,
    User,
}

/// Relies on nkeys::KeyPair::new, seed and public_key: a fresh random key
/// pair of the given type; its seed string round-trips through from_seed, and
/// its public key is the seed's. Nothing is promised about which pair comes
/// back.
#[verifier::external_body]
pub fn new_keypair(kt: &KeyType) -> (r: (String, String))
    ensures
        seed_valid(r.0@),
        r.1@ == pk_of(r.0@),
{
    let t = match kt {
        KeyType::Account => nkeys::KeyPairType::Account,
        KeyType::Cluster => nkeys::KeyPairType::Cluster,
        KeyType::Service => nkeys::KeyPairType::Service,
        KeyType::Module => nkeys::KeyPairType::Module,
        KeyType::Server => nkeys::KeyPairType::Server,
        KeyType::Operator => nkeys::KeyPairType::Operator,
        KeyType::User => nkeys::KeyPairType::User,
    };
    let kp = nkeys::KeyPair::new(t);
    let seed = kp.seed().expect("a generated key pair has a seed");
    let pk = kp.public_key();
    (seed, pk)
}

/// Relies on nkeys::KeyPair::from_seed and public_key: `Some` exactly on
/// seeds that decode, and then the encoded public key of the pair.
#[verifier::external_body]
pub fn public_key_of_seed(seed: &String) -> (r: Option<String>)
    ensures
        r is Some <==> seed_valid(seed@),
        r matches Some(pk) ==> pk@ == pk_of(seed@),
{
    match nkeys::KeyPair::from_seed(seed.as_str()) {
        Ok(kp) => Some(kp.public_key()),
        Err(_) => None,
    }
}

/// Relies on nkeys::KeyPair::from_seed and sign: `Some` exactly on seeds that
/// decode; the deterministic Ed25519 signature verifies under the seed's own
/// public key (the Ed25519 sign/verify correspondence).
#[verifier::external_body]
pub fn sign_with_seed(seed: &String, msg: &Vec<u8>) -> (r: Option<Vec<u8>>)
    ensures
        r is Some <==> seed_valid(seed@),
        r matches Some(sig) ==> sig@ == sig_of(seed@, msg@),
        r matches Some(sig) ==> verify_ok(pk_of(seed@), msg@, sig@),
{
    match nkeys::KeyPair::from_seed(seed.as_str()) {
        Ok(kp) => kp.sign(msg.as_slice()).ok(),
        Err(_) => None,
    }
}

/// Relies on nkeys::KeyPair::from_public_key and verify: whether Ed25519
/// verification succeeds under the encoded public key.
#[verifier::external_body]
pub fn verify_signature(pk: &String, msg: &Vec<u8>, sig: &Vec<u8>) -> (r: bool)
    ensures
        r == verify_ok(pk@, msg@, sig@),
{
    match nkeys::KeyPair::from_public_key(pk.as_str()) {
        Ok(kp) => kp.verify(msg.as_slice(), sig.as_slice()).is_ok(),
        Err(_) => false,
    }
}

/// A verified claims record: who signed, whom it names, when it is valid,
/// and the declared interface of the module it describes.
#[derive(Debug)]
pub struct Claims {
    pub issuer: String,
    pub subject: String,
    pub issued_at: u64,
    pub expires_at: Option<u64>,
    pub not_before: Option<u64>,
    pub name: String,
    pub tags: Vec<String>,
    pub interface: ComponentSignature,
}

/// The packet value standing for an optional count: a list that is empty or
/// holds the single count.
pub open spec fn opt_u64_view(v: Option<u64>) -> ValueView {
    match v {
        Some(n) => ValueView::ValueList(seq![ValueView::Uint64(n)]),
        None => ValueView::ValueList(Seq::empty()),
    }
}

/// The packet value standing for a list of texts.
pub open spec fn texts_view(ts: Seq<Seq<char>>) -> ValueView {
    ValueView::ValueList(ts.map_values(|t: Seq<char>| ValueView::Text(t)))
}

/// The packet value standing for a port list: ordered pairs of port name and
/// type.
pub open spec fn ports_view(ps: Seq<PortSignature>) -> ValueView {
    ValueView::ValueMap(
        ps.map_values(|p: PortSignature| (p.name@, ValueView::Text(p.type_string@))),
    )
}

/// The canonical packet value of a claims record: a structured value with a
/// fixed field order. It depends only on the fields' characters and counts.
pub open spec fn claims_view(c: &Claims) -> ValueView {
    ValueView::Structured(
        "claims"@,
        seq![
            ("issuer"@, ValueView::Text(c.issuer@)),
            ("subject"@, ValueView::Text(c.subject@)),
            ("issued_at"@, ValueView::Uint64(c.issued_at)),
            ("expires_at"@, opt_u64_view(c.expires_at)),
            ("not_before"@, opt_u64_view(c.not_before)),
            ("name"@, ValueView::Text(c.name@)),
            ("tags"@, texts_view(c.tags@.map_values(|t: String| t@))),
            ("interface_name"@, ValueView::Text(c.interface.name@)),
            ("inputs"@, ports_view(c.interface.inputs@)),
            ("outputs"@, ports_view(c.interface.outputs@)),
        ],
    )
}

/// The canonical payload encoding of a claims record: the codec encoding of
/// its packet value.
pub open spec fn enc_claims(c: &Claims) -> Seq<u8> {
    crate::codec::enc_value(claims_view(c))
}

/// The envelope around a signed payload: the algorithm byte (Ed25519), the
/// counted payload, the counted signature.
pub open spec fn token_bytes(payload: Seq<u8>, sig: Seq<u8>) -> Seq<u8> {
    seq![1u8] + spec_u64_to_le_bytes(payload.len() as u64) + payload + spec_u64_to_le_bytes(
        sig.len() as u64,
    ) + sig
}

/// Why a token was rejected.
#[derive(Clone, Copy, PartialEq, Eq, Structural, Debug)]
pub enum ClaimsError {
    /// The envelope or the payload does not parse.
    Malformed,
    /// The signature does not verify under the embedded issuer key.
    BadSignature,
    /// The validity window has closed.
    Expired,
    /// The validity window has not opened.
    NotYetValid,
}

/// Whether the claims' validity window contains `now`.
pub open spec fn window_ok(expires_at: Option<u64>, not_before: Option<u64>, now: u64) -> bool {
    &&& (expires_at matches Some(e) ==> now < e)
    &&& (not_before matches Some(b) ==> b <= now)
}

fn opt_u64_value(v: &Option<u64>) -> (r: Value)
    ensures
        r@ == opt_u64_view(*v),
{
    match v {
        Some(n) => {
            let mut items: Vec<Value> = Vec::new();
            items.push(Value::Uint64(*n));
            proof {
                lemma_value_list_view_props(items@);
                assert(value_list_view(items@)[0] == ValueView::Uint64(*n));
                assert(value_list_view(items@) =~= seq![ValueView::Uint64(*n)]);
            }
            Value::ValueList(items)
        },
        None => {
            let items: Vec<Value> = Vec::new();
            proof {
                lemma_value_list_view_props(items@);
                assert(value_list_view(items@) =~= Seq::<ValueView>::empty());
            }
            Value::ValueList(items)
        },
    }
}

#[verifier::loop_isolation(false)]
fn texts_value_of(ts: &Vec<String>) -> (r: Value)
    ensures
        r@ == texts_view(ts@.map_values(|t: String| t@)),
{
    let mut items: Vec<Value> = Vec::new();
    let n = ts.len();
    let mut i: usize = 0;
    while i < n
        invariant
            i <= n,
            value_list_view(items@) =~= ts@.subrange(0, i as int).map_values(|t: String| t@)
                .map_values(|t: Seq<char>| ValueView::Text(t)),
        decreases n - i,
    {
        let ghost pre = items@;
        items.push(Value::Text(ts[i].clone()));
        proof {
            lemma_value_list_view_props(items@);
            lemma_value_list_view_props(pre);
            assert(items@.drop_last() =~= pre);
            assert(value_list_view(items@) =~= value_list_view(pre).push(
                ValueView::Text(ts@[i as int]@),
            ));
            assert(ts@.subrange(0, i + 1).map_values(|t: String| t@).map_values(
                |t: Seq<char>| ValueView::Text(t),
            ) =~= ts@.subrange(0, i as int).map_values(|t: String| t@).map_values(
                |t: Seq<char>| ValueView::Text(t),
            ).push(ValueView::Text(ts@[i as int]@)));
        }
        i = i + 1;
    }
    proof {
        assert(ts@.subrange(0, n as int) =~= ts@);
        assert(ts@.map_values(|t: String| t@).map_values(|t: Seq<char>| ValueView::Text(t))
            =~= ts@.subrange(0, n as int).map_values(|t: String| t@).map_values(
            |t: Seq<char>| ValueView::Text(t),
        ));
    }
    Value::ValueList(items)
}

#[verifier::loop_isolation(false)]
fn ports_value(ps: &Vec<PortSignature>) -> (r: Value)
    ensures
        r@ == ports_view(ps@),
{
    let mut pairs: Vec<(String, Value)> = Vec::new();
    let n = ps.len();
    let mut i: usize = 0;
    while i < n
        invariant
            i <= n,
            value_pairs_view(pairs@) =~= ps@.subrange(0, i as int).map_values(
                |p: PortSignature| (p.name@, ValueView::Text(p.type_string@)),
            ),
        decreases n - i,
    {
        let ghost pre = pairs@;
        pairs.push((ps[i].name.clone(), Value::Text(ps[i].type_string.clone())));
        proof {
            lemma_value_pairs_view_props(pairs@);
            lemma_value_pairs_view_props(pre);
            assert(pairs@.drop_last() =~= pre);
            assert(value_pairs_view(pairs@) =~= value_pairs_view(pre).push(
                (ps@[i as int].name@, ValueView::Text(ps@[i as int].type_string@)),
            ));
            assert(ps@.subrange(0, i + 1).map_values(
                |p: PortSignature| (p.name@, ValueView::Text(p.type_string@)),
            ) =~= ps@.subrange(0, i as int).map_values(
                |p: PortSignature| (p.name@, ValueView::Text(p.type_string@)),
            ).push((ps@[i as int].name@, ValueView::Text(ps@[i as int].type_string@))));
        }
        i = i + 1;
    }
    proof {
        assert(ps@.subrange(0, n as int) =~= ps@);
    }
    Value::ValueMap(pairs)
}

/// The canonical packet value of a claims record, as a buildable value.
fn claims_value(c: &Claims) -> (r: Value)
    ensures
        r@ == claims_view(c),
{
    let mut fields: Vec<(String, Value)> = Vec::new();
    fields.push((String::from_str("issuer"), Value::Text(c.issuer.clone())));
    fields.push((String::from_str("subject"), Value::Text(c.subject.clone())));
    fields.push((String::from_str("issued_at"), Value::Uint64(c.issued_at)));
    fields.push((String::from_str("expires_at"), opt_u64_value(&c.expires_at)));
    fields.push((String::from_str("not_before"), opt_u64_value(&c.not_before)));
    fields.push((String::from_str("name"), Value::Text(c.name.clone())));
    fields.push((String::from_str("tags"), texts_value_of(&c.tags)));
    fields.push((String::from_str("interface_name"), Value::Text(c.interface.name.clone())));
    fields.push((String::from_str("inputs"), ports_value(&c.interface.inputs)));
    fields.push((String::from_str("outputs"), ports_value(&c.interface.outputs)));
    proof {
        lemma_value_pairs_view_props(fields@);
        assert(value_pairs_view(fields@) =~= claims_view(c)->Structured_1);
    }
    Value::Structured(String::from_str("claims"), fields)
}

/// The canonical payload bytes of a claims record; its packet value is
/// well-formed because every counted length is a machine length.
pub fn build_claims_payload(c: &Claims) -> (r: Vec<u8>)
    ensures
        r@ == enc_claims(c),
        view_wf(claims_view(c)),
{
    let v = claims_value(c);
    let mut out: Vec<u8> = Vec::new();
    encode_value_into(&v, &mut out);
    out
}

/// Whether two byte strings are equal.
pub fn bytes_eq(a: &Vec<u8>, b: &Vec<u8>) -> (r: bool)
    ensures
        r == (a@ == b@),
{
    if a.len() != b.len() {
        return false;
    }
    let n = a.len();
    let mut i: usize = 0;
    while i < n
        invariant
            n == a@.len(),
            n == b@.len(),
            i <= n,
            forall|j: int| 0 <= j < i ==> a@[j] == b@[j],
        decreases n - i,
    {
        if a[i] != b[i] {
            return false;
        }
        i = i + 1;
    }
    proof {
        assert(a@ =~= b@);
    }
    true
}

/// A canonical claims encoding that is well-formed (all lengths fit their
/// fixed widths) and equals the given bytes.
pub open spec fn canonical_claims(bytes: Seq<u8>, c2: &Claims) -> bool {
    bytes == enc_claims(c2) && view_wf(claims_view(c2))
}

proof fn lemma_canonical_decodes(bytes: Seq<u8>, c2: &Claims)
    requires
        canonical_claims(bytes, c2),
    ensures
        dec_value(bytes) == Some((claims_view(c2), bytes.len() as int)),
        tag_admits(TypeTag::StructRef, claims_view(c2)),
{
    lemma_dec_enc_value(claims_view(c2), Seq::empty());
    assert(enc_value(claims_view(c2)) + Seq::<u8>::empty() =~= enc_value(claims_view(c2)));
}

fn extract_text(v: &Value) -> (r: Option<String>)
    ensures
        r matches Some(s) ==> v@ == ValueView::Text(s@),
        r is None ==> !(v@ is Text),
{
    match v {
        Value::Text(s) => Some(s.clone()),
        _ => None,
    }
}

fn extract_u64(v: &Value) -> (r: Option<u64>)
    ensures
        r matches Some(n) ==> v@ == ValueView::Uint64(n),
        r is None ==> !(v@ is Uint64),
{
    match v {
        Value::Uint64(n) => Some(*n),
        _ => None,
    }
}

fn extract_opt_u64(v: &Value) -> (r: Option<Option<u64>>)
    ensures
        r matches Some(o) ==> v@ == opt_u64_view(o),
        r is None ==> forall|o: Option<u64>| v@ != #[trigger] opt_u64_view(o),
{
    match v {
        Value::ValueList(items) => {
            proof {
                lemma_value_list_view_props(items@);
            }
            if items.len() == 0 {
                proof {
                    assert(value_list_view(items@) =~= Seq::<ValueView>::empty());
                }
                Some(None)
            } else if items.len() == 1 {
                match &items[0] {
                    Value::Uint64(n) => {
                        proof {
                            assert(value_list_view(items@) =~= seq![ValueView::Uint64(*n)]);
                        }
                        Some(Some(*n))
                    },
                    _ => {
                        proof {
                            assert forall|o: Option<u64>| v@ != #[trigger] opt_u64_view(
                                o,
                            ) by {
                                assert(value_list_view(items@)[0] == items@[0]@);
                            }
                        }
                        None
                    },
                }
            } else {
                proof {
                    assert forall|o: Option<u64>| v@ != #[trigger] opt_u64_view(o) by {}
                }
                None
            }
        },
        _ => {
            proof {
                assert forall|o: Option<u64>| v@ != #[trigger] opt_u64_view(o) by {}
            }
            None
        },
    }
}

#[verifier::loop_isolation(false)]
fn extract_texts(v: &Value) -> (r: Option<Vec<String>>)
    ensures
        r matches Some(ts) ==> v@ == texts_view(ts@.map_values(|t: String| t@)),
        r is None ==> forall|s: Seq<Seq<char>>| v@ != #[trigger] texts_view(s),
{
    match v {
        Value::ValueList(items) => {
            proof {
                lemma_value_list_view_props(items@);
            }
            let mut out: Vec<String> = Vec::new();
            let n = items.len();
            let mut i: usize = 0;
            while i < n
                invariant
                    i <= n,
                    out@.len() == i,
                    forall|j: int|
                        0 <= j < i ==> value_list_view(items@)[j] == ValueView::Text(
                            (#[trigger] out@[j])@,
                        ),
                decreases n - i,
            {
                match &items[i] {
                    Value::Text(s) => {
                        out.push(s.clone());
                    },
                    _ => {
                        proof {
                            assert(value_list_view(items@)[i as int] == items@[i as int]@);
                            assert forall|s: Seq<Seq<char>>| v@ != #[trigger] texts_view(
                                s,
                            ) by {
                                if v@ == texts_view(s) {
                                    assert(value_list_view(items@) == s.map_values(
                                        |t: Seq<char>| ValueView::Text(t),
                                    ));
                                    assert(value_list_view(items@)[i as int] is Text);
                                }
                            }
                        }
                        return None;
                    },
                }
                i = i + 1;
            }
            proof {
                assert(value_list_view(items@) =~= out@.map_values(|t: String| t@).map_values(
                    |t: Seq<char>| ValueView::Text(t),
                ));
            }
            Some(out)
        },
        _ => {
            proof {
                assert forall|s: Seq<Seq<char>>| v@ != #[trigger] texts_view(s) by {}
            }
            None
        },
    }
}

#[verifier::loop_isolation(false)]
fn extract_ports(v: &Value) -> (r: Option<Vec<PortSignature>>)
    ensures
        r matches Some(ps) ==> v@ == ports_view(ps@),
        r is None ==> forall|qs: Seq<PortSignature>| v@ != #[trigger] ports_view(qs),
{
    match v {
        Value::ValueMap(pairs) => {
            proof {
                lemma_value_pairs_view_props(pairs@);
            }
            let mut out: Vec<PortSignature> = Vec::new();
            let n = pairs.len();
            let mut i: usize = 0;
            while i < n
                invariant
                    i <= n,
                    out@.len() == i,
                    forall|j: int|
                        0 <= j < i ==> value_pairs_view(pairs@)[j] == (
                            (#[trigger] out@[j]).name@,
                            ValueView::Text(out@[j].type_string@),
                        ),
                decreases n - i,
            {
                match &pairs[i].1 {
                    Value::Text(ty) => {
                        out.push(PortSignature {
                            name: pairs[i].0.clone(),
                            type_string: ty.clone(),
                        });
                        proof {
                            assert(value_pairs_view(pairs@)[i as int] == (
                                pairs@[i as int].0@,
                                pairs@[i as int].1@,
                            ));
                        }
                    },
                    _ => {
                        proof {
                            assert(value_pairs_view(pairs@)[i as int] == (
                                pairs@[i as int].0@,
                                pairs@[i as int].1@,
                            ));
                            assert forall|qs: Seq<PortSignature>| v@ != #[trigger] ports_view(
                                qs,
                            ) by {
                                if v@ == ports_view(qs) {
                                    assert(value_pairs_view(pairs@) == qs.map_values(
                                        |p: PortSignature| (
                                            p.name@,
                                            ValueView::Text(p.type_string@),
                                        ),
                                    ));
                                    assert(value_pairs_view(pairs@)[i as int].1 is Text);
                                }
                            }
                        }
                        return None;
                    },
                }
                i = i + 1;
            }
            proof {
                assert(value_pairs_view(pairs@) =~= out@.map_values(
                    |p: PortSignature| (p.name@, ValueView::Text(p.type_string@)),
                ));
            }
            Some(out)
        },
        _ => {
            proof {
                assert forall|qs: Seq<PortSignature>| v@ != #[trigger] ports_view(qs) by {}
            }
            None
        },
    }
}

/// Parses a canonical claims payload. Anything returned re-encodes to
/// exactly the given bytes and has a well-formed packet value; and every
/// canonical encoding parses.
pub fn parse_claims_payload(bytes: &Vec<u8>) -> (r: Option<Claims>)
    ensures
        r matches Some(c) ==> enc_claims(&c) == bytes@ && view_wf(claims_view(&c)),
        forall|c2: Claims| canonical_claims(bytes@, &c2) ==> r is Some,
{
    let val = match decode(bytes, &TypeTag::StructRef) {
        Ok(v) => v,
        Err(e) => {
            proof {
                assert forall|c2: Claims| canonical_claims(bytes@, &c2) implies false by {
                    lemma_canonical_decodes(bytes@, &c2);
                }
            }
            return None;
        },
    };
    let ghost vview = val@;
    let fields = match val {
        Value::Structured(_, fields) => fields,
        other => {
            proof {
                assert forall|c2: Claims| canonical_claims(bytes@, &c2) implies false by {
                    lemma_canonical_decodes(bytes@, &c2);
                    assert(vview == claims_view(&c2));
                    assert(vview is Structured);
                }
            }
            return None;
        },
    };
    proof {
        lemma_value_pairs_view_props(fields@);
    }
    let ghost pview = value_pairs_view(fields@);
    if fields.len() != 10 {
        proof {
            assert forall|c2: Claims| canonical_claims(bytes@, &c2) implies false by {
                lemma_canonical_decodes(bytes@, &c2);
                assert(vview == claims_view(&c2));
                assert(pview.len() == 10);
            }
        }
        return None;
    }
    let issuer = match extract_text(&fields[0].1) {
        Some(s) => s,
        None => {
            proof {
                assert forall|c2: Claims| canonical_claims(bytes@, &c2) implies false by {
                    lemma_canonical_decodes(bytes@, &c2);
                    assert(vview == claims_view(&c2));
                    assert(pview[0] == ("issuer"@, ValueView::Text(c2.issuer@)));
                    assert(fields@[0].1@ is Text);
                }
            }
            return None;
        },
    };
    let subject = match extract_text(&fields[1].1) {
        Some(s) => s,
        None => {
            proof {
                assert forall|c2: Claims| canonical_claims(bytes@, &c2) implies false by {
                    lemma_canonical_decodes(bytes@, &c2);
                    assert(vview == claims_view(&c2));
                    assert(pview[1] == ("subject"@, ValueView::Text(c2.subject@)));
                    assert(fields@[1].1@ is Text);
                }
            }
            return None;
        },
    };
    let issued_at = match extract_u64(&fields[2].1) {
        Some(n) => n,
        None => {
            proof {
                assert forall|c2: Claims| canonical_claims(bytes@, &c2) implies false by {
                    lemma_canonical_decodes(bytes@, &c2);
                    assert(vview == claims_view(&c2));
                    assert(pview[2] == ("issued_at"@, ValueView::Uint64(c2.issued_at)));
                    assert(fields@[2].1@ is Uint64);
                }
            }
            return None;
        },
    };
    let expires_at = match extract_opt_u64(&fields[3].1) {
        Some(o) => o,
        None => {
            proof {
                assert forall|c2: Claims| canonical_claims(bytes@, &c2) implies false by {
                    lemma_canonical_decodes(bytes@, &c2);
                    assert(vview == claims_view(&c2));
                    assert(pview[3] == ("expires_at"@, opt_u64_view(c2.expires_at)));
                    assert(fields@[3].1@ == opt_u64_view(c2.expires_at));
                }
            }
            return None;
        },
    };
    let not_before = match extract_opt_u64(&fields[4].1) {
        Some(o) => o,
        None => {
            proof {
                assert forall|c2: Claims| canonical_claims(bytes@, &c2) implies false by {
                    lemma_canonical_decodes(bytes@, &c2);
                    assert(vview == claims_view(&c2));
                    assert(pview[4] == ("not_before"@, opt_u64_view(c2.not_before)));
                    assert(fields@[4].1@ == opt_u64_view(c2.not_before));
                }
            }
            return None;
        },
    };
    let name = match extract_text(&fields[5].1) {
        Some(s) => s,
        None => {
            proof {
                assert forall|c2: Claims| canonical_claims(bytes@, &c2) implies false by {
                    lemma_canonical_decodes(bytes@, &c2);
                    assert(vview == claims_view(&c2));
                    assert(pview[5] == ("name"@, ValueView::Text(c2.name@)));
                    assert(fields@[5].1@ is Text);
                }
            }
            return None;
        },
    };
    let tags = match extract_texts(&fields[6].1) {
        Some(ts) => ts,
        None => {
            proof {
                assert forall|c2: Claims| canonical_claims(bytes@, &c2) implies false by {
                    lemma_canonical_decodes(bytes@, &c2);
                    assert(vview == claims_view(&c2));
                    assert(pview[6] == (
                        "tags"@,
                        texts_view(c2.tags@.map_values(|t: String| t@)),
                    ));
                    assert(fields@[6].1@ == texts_view(c2.tags@.map_values(|t: String| t@)));
                }
            }
            return None;
        },
    };
    let iface_name = match extract_text(&fields[7].1) {
        Some(s) => s,
        None => {
            proof {
                assert forall|c2: Claims| canonical_claims(bytes@, &c2) implies false by {
                    lemma_canonical_decodes(bytes@, &c2);
                    assert(vview == claims_view(&c2));
                    assert(pview[7] == ("interface_name"@, ValueView::Text(c2.interface.name@)));
                    assert(fields@[7].1@ is Text);
                }
            }
            return None;
        },
    };
    let inputs = match extract_ports(&fields[8].1) {
        Some(ps) => ps,
        None => {
            proof {
                assert forall|c2: Claims| canonical_claims(bytes@, &c2) implies false by {
                    lemma_canonical_decodes(bytes@, &c2);
                    assert(vview == claims_view(&c2));
                    assert(pview[8] == ("inputs"@, ports_view(c2.interface.inputs@)));
                    assert(fields@[8].1@ == ports_view(c2.interface.inputs@));
                }
            }
            return None;
        },
    };
    let outputs = match extract_ports(&fields[9].1) {
        Some(ps) => ps,
        None => {
            proof {
                assert forall|c2: Claims| canonical_claims(bytes@, &c2) implies false by {
                    lemma_canonical_decodes(bytes@, &c2);
                    assert(vview == claims_view(&c2));
                    assert(pview[9] == ("outputs"@, ports_view(c2.interface.outputs@)));
                    assert(fields@[9].1@ == ports_view(c2.interface.outputs@));
                }
            }
            return None;
        },
    };
    let c = Claims {
        issuer,
        subject,
        issued_at,
        expires_at,
        not_before,
        name,
        tags,
        interface: ComponentSignature { name: iface_name, inputs, outputs },
    };
    let rebuilt = build_claims_payload(&c);
    if bytes_eq(&rebuilt, bytes) {
        Some(c)
    } else {
        proof {
            assert forall|c2: Claims| canonical_claims(bytes@, &c2) implies false by {
                lemma_canonical_decodes(bytes@, &c2);
                assert(vview == claims_view(&c2));
                assert(pview =~= claims_view(&c2)->Structured_1);
                assert(pview[0].1 == ValueView::Text(c2.issuer@));
                assert(c.issuer@ == c2.issuer@);
                assert(pview[1].1 == ValueView::Text(c2.subject@));
                assert(c.subject@ == c2.subject@);
                assert(pview[2].1 == ValueView::Uint64(c2.issued_at));
                assert(c.issued_at == c2.issued_at);
                assert(pview[3].1 == opt_u64_view(c2.expires_at));
                lemma_opt_u64_view_injective(c.expires_at, c2.expires_at);
                assert(pview[4].1 == opt_u64_view(c2.not_before));
                lemma_opt_u64_view_injective(c.not_before, c2.not_before);
                assert(pview[5].1 == ValueView::Text(c2.name@));
                assert(c.name@ == c2.name@);
                assert(pview[6].1 == texts_view(c2.tags@.map_values(|t: String| t@)));
                assert(pview[7].1 == ValueView::Text(c2.interface.name@));
                assert(pview[8].1 == ports_view(c2.interface.inputs@));
                assert(pview[9].1 == ports_view(c2.interface.outputs@));
                assert(claims_view(&c)->Structured_1 =~= claims_view(&c2)->Structured_1);
                assert(claims_view(&c) == claims_view(&c2));
                assert(rebuilt@ == bytes@);
            }
        }
        None
    }
}

proof fn lemma_opt_u64_view_injective(a: Option<u64>, b: Option<u64>)
    requires
        opt_u64_view(a) == opt_u64_view(b),
    ensures
        a == b,
{
    match (a, b) {
        (Some(x), Some(y)) => {
            assert(opt_u64_view(a)->ValueList_0[0] == ValueView::Uint64(x));
        },
        (Some(x), None) => {
            assert(opt_u64_view(a)->ValueList_0.len() == 1);
            assert(opt_u64_view(b)->ValueList_0.len() == 0);
        },
        (None, Some(y)) => {
            assert(opt_u64_view(a)->ValueList_0.len() == 0);
            assert(opt_u64_view(b)->ValueList_0.len() == 1);
        },
        (None, None) => {},
    }
}

/// Issues a compact signed token: the claims, with the issuer set to the
/// seed's own public key, canonically encoded and Ed25519-signed. Fails
/// exactly when the seed does not decode.
pub fn issue_token(c: &Claims, seed: &String) -> (r: Option<(Vec<u8>, Claims)>)
    ensures
        r is Some <==> seed_valid(seed@),
        r matches Some((t, c2)) ==> {
            &&& c2.issuer@ == pk_of(seed@)
            &&& c2.subject@ == c.subject@
            &&& c2.issued_at == c.issued_at
            &&& c2.expires_at == c.expires_at
            &&& c2.not_before == c.not_before
            &&& t@ == token_bytes(enc_claims(&c2), sig_of(seed@, enc_claims(&c2)))
            &&& verify_ok(pk_of(seed@), enc_claims(&c2), sig_of(seed@, enc_claims(&c2)))
        },
{
    let pk = match public_key_of_seed(seed) {
        Some(pk) => pk,
        None => {
            return None;
        },
    };
    let c2 = Claims {
        issuer: pk,
        subject: c.subject.clone(),
        issued_at: c.issued_at,
        expires_at: c.expires_at,
        not_before: c.not_before,
        name: c.name.clone(),
        tags: c.tags.clone(),
        interface: ComponentSignature {
            name: c.interface.name.clone(),
            inputs: c.interface.inputs.clone(),
            outputs: c.interface.outputs.clone(),
        },
    };
    let payload = build_claims_payload(&c2);
    let sig = match sign_with_seed(seed, &payload) {
        Some(sig) => sig,
        None => {
            return None;
        },
    };
    let mut t: Vec<u8> = Vec::new();
    t.push(1u8);
    crate::codec::push_u64_le(&mut t, payload.len() as u64);
    let mut pcopy = payload.clone();
    proof {
        assert(pcopy@ =~= payload@);
    }
    t.append(&mut pcopy);
    crate::codec::push_u64_le(&mut t, sig.len() as u64);
    let mut scopy = sig.clone();
    proof {
        assert(scopy@ =~= sig@);
    }
    t.append(&mut scopy);
    proof {
        assert(t@ =~= seq![1u8] + spec_u64_to_le_bytes(payload@.len() as u64) + payload@
            + spec_u64_to_le_bytes(sig@.len() as u64) + sig@);
        assert(t@ =~= token_bytes(payload@, sig@));
    }
    Some((t, c2))
}

/// Decides whether a validity window contains `now`: a closed window is
/// expired, an unopened one is not yet valid, and expiry is checked first.
pub fn check_window(expires_at: &Option<u64>, not_before: &Option<u64>, now: u64) -> (r: Result<
    (),
    ClaimsError,
>)
    ensures
        r is Ok <==> window_ok(*expires_at, *not_before, now),
        r == Err::<(), ClaimsError>(ClaimsError::Expired) <==> ((*expires_at) matches Some(e)
            && now >= e),
        r == Err::<(), ClaimsError>(ClaimsError::NotYetValid) <==> (window_ok(
            *expires_at,
            None,
            now,
        ) && ((*not_before) matches Some(b) && now < b)),
{
    match expires_at {
        Some(e) => {
            if now >= *e {
                return Err(ClaimsError::Expired);
            }
        },
        None => {},
    }
    match not_before {
        Some(b) => {
            if now < *b {
                return Err(ClaimsError::NotYetValid);
            }
        },
        None => {},
    }
    Ok(())
}

/// Verifies a token at time `now`: the envelope and payload must parse, the
/// signature must verify under the embedded issuer key, and the validity
/// window must contain `now`. Anything accepted is a faithfully decoded,
/// correctly signed, currently valid claims record.
pub fn verify_token(bytes: &Vec<u8>, now: u64) -> (r: Result<Claims, ClaimsError>)
    ensures
        r matches Ok(c) ==> {
            &&& exists|sig: Seq<u8>|
                bytes@ == token_bytes(enc_claims(&c), sig) && verify_ok(
                    c.issuer@,
                    enc_claims(&c),
                    sig,
                )
            &&& window_ok(c.expires_at, c.not_before, now)
        },
        forall|c2: Claims, sig: Seq<u8>|
            #[trigger] well_signed(bytes@, &c2, sig, now) ==> r is Ok,
{
    proof {
        lemma_auto_spec_u64_to_from_le_bytes();
    }
    if bytes.len() < 1 {
        proof {
            assert forall|c2: Claims, sig2: Seq<u8>|
                #[trigger] well_signed(bytes@, &c2, sig2, now) implies false by {
                assert(bytes@.len() >= 17);
            }
        }
        return Err(ClaimsError::Malformed);
    }
    if bytes[0] != 1 {
        proof {
            assert forall|c2: Claims, sig2: Seq<u8>|
                #[trigger] well_signed(bytes@, &c2, sig2, now) implies false by {
                assert(token_bytes(enc_claims(&c2), sig2)[0] == 1);
            }
        }
        return Err(ClaimsError::Malformed);
    }
    let (plen, p1) = match crate::codec::read_u64_at(bytes, 1) {
        Some(x) => x,
        None => {
            proof {
                assert forall|c2: Claims, sig2: Seq<u8>|
                    #[trigger] well_signed(bytes@, &c2, sig2, now) implies false by {
                    assert(bytes@.len() >= 17);
                }
            }
            return Err(ClaimsError::Malformed);
        },
    };
    let rem1 = bytes.len() - p1;
    if plen > rem1 as u64 {
        proof {
            assert forall|c2: Claims, sig: Seq<u8>|
                #[trigger] well_signed(bytes@, &c2, sig, now) implies false by {
                lemma_token_shape(bytes@, &c2, sig);
            }
        }
        return Err(ClaimsError::Malformed);
    }
    let pl = plen as usize;
    let payload = vstd::slice::slice_to_vec(
        vstd::slice::slice_subrange(bytes.as_slice(), p1, p1 + pl),
    );
    let (slen, p2) = match crate::codec::read_u64_at(bytes, p1 + pl) {
        Some(x) => x,
        None => {
            proof {
                assert forall|c2: Claims, sig: Seq<u8>|
                    #[trigger] well_signed(bytes@, &c2, sig, now) implies false by {
                    lemma_token_shape(bytes@, &c2, sig);
                }
            }
            return Err(ClaimsError::Malformed);
        },
    };
    let rem2 = bytes.len() - p2;
    if slen != rem2 as u64 {
        proof {
            assert forall|c2: Claims, sig: Seq<u8>|
                #[trigger] well_signed(bytes@, &c2, sig, now) implies false by {
                lemma_token_shape(bytes@, &c2, sig);
            }
        }
        return Err(ClaimsError::Malformed);
    }
    let sl = slen as usize;
    let sig = vstd::slice::slice_to_vec(
        vstd::slice::slice_subrange(bytes.as_slice(), p2, p2 + sl),
    );
    let ghost payload_view = payload@;
    let ghost sig_view = sig@;
    proof {
        assert forall|c2: Claims, sig2: Seq<u8>|
            #[trigger] well_signed(bytes@, &c2, sig2, now) implies payload_view == enc_claims(&c2)
            && sig_view == sig2 by {
            lemma_token_shape(bytes@, &c2, sig2);
            assert(payload_view =~= enc_claims(&c2));
            assert(sig_view =~= sig2);
        }
    }
    let c = match parse_claims_payload(&payload) {
        Some(c) => c,
        None => {
            proof {
                assert forall|c2: Claims, sig2: Seq<u8>|
                    #[trigger] well_signed(bytes@, &c2, sig2, now) implies false by {
                    assert(canonical_claims(payload_view, &c2));
                }
            }
            return Err(ClaimsError::Malformed);
        },
    };
    if !verify_signature(&c.issuer, &payload, &sig) {
        proof {
            assert forall|c2: Claims, sig2: Seq<u8>|
                well_signed(bytes@, &c2, sig2, now) implies false by {
                lemma_same_encoding_same_fields(&c, &c2);
            }
        }
        return Err(ClaimsError::BadSignature);
    }
    match check_window(&c.expires_at, &c.not_before, now) {
        Ok(()) => {},
        Err(e) => {
            proof {
                assert forall|c2: Claims, sig2: Seq<u8>|
                    #[trigger] well_signed(bytes@, &c2, sig2, now) implies false by {
                    lemma_same_encoding_same_fields(&c, &c2);
                }
            }
            return Err(e);
        },
    }
    proof {
        assert(bytes@.subrange(1, 9) =~= spec_u64_to_le_bytes(plen));
        assert(bytes@.subrange(p1 + pl as int, p1 + pl + 8) =~= spec_u64_to_le_bytes(slen));
        assert(payload@.len() == pl);
        assert(sig@.len() == sl);
        assert(bytes@ =~= token_bytes(payload@, sig@));
    }
    Ok(c)
}

/// A token byte string correctly signed over the canonical encoding of
/// `c2`, valid at `now`.
pub open spec fn well_signed(bytes: Seq<u8>, c2: &Claims, sig: Seq<u8>, now: u64) -> bool {
    &&& bytes == token_bytes(enc_claims(c2), sig)
    &&& view_wf(claims_view(c2))
    &&& verify_ok(c2.issuer@, enc_claims(c2), sig)
    &&& window_ok(c2.expires_at, c2.not_before, now)
}

/// The fixed layout of a token byte string: the algorithm byte, the length
/// prefixes and the payload and signature regions.
proof fn lemma_token_shape(bytes: Seq<u8>, c2: &Claims, sig: Seq<u8>)
    requires
        bytes == token_bytes(enc_claims(c2), sig),
        bytes.len() < 0x1_0000_0000_0000_0000,
    ensures
        bytes.len() == 17 + enc_claims(c2).len() + sig.len(),
        bytes[0] == 1,
        spec_u64_from_le_bytes(bytes.subrange(1, 9)) == enc_claims(c2).len(),
        bytes.subrange(9, 9 + enc_claims(c2).len() as int) == enc_claims(c2),
        spec_u64_from_le_bytes(
            bytes.subrange(
                9 + enc_claims(c2).len() as int,
                17 + enc_claims(c2).len() as int,
            ),
        ) == sig.len(),
        bytes.subrange(17 + enc_claims(c2).len() as int, bytes.len() as int) == sig,
{
    lemma_auto_spec_u64_to_from_le_bytes();
    let e = enc_claims(c2);
    assert(bytes.subrange(1, 9) =~= spec_u64_to_le_bytes(e.len() as u64));
    assert(bytes.subrange(9, 9 + e.len() as int) =~= e);
    assert(bytes.subrange(9 + e.len() as int, 17 + e.len() as int) =~= spec_u64_to_le_bytes(
        sig.len() as u64,
    ));
    assert(bytes.subrange(17 + e.len() as int, bytes.len() as int) =~= sig);
}

/// Two claims records with the same well-formed canonical encoding agree on
/// the fields token verification reads: issuer and validity window.
proof fn lemma_same_encoding_same_fields(a: &Claims, b: &Claims)
    requires
        enc_claims(a) == enc_claims(b),
        view_wf(claims_view(a)),
        view_wf(claims_view(b)),
    ensures
        a.issuer@ == b.issuer@,
        a.expires_at == b.expires_at,
        a.not_before == b.not_before,
{
    lemma_dec_enc_value(claims_view(a), Seq::empty());
    lemma_dec_enc_value(claims_view(b), Seq::empty());
    assert(enc_value(claims_view(a)) + Seq::<u8>::empty() =~= enc_value(claims_view(a)));
    assert(enc_value(claims_view(b)) + Seq::<u8>::empty() =~= enc_value(claims_view(b)));
    assert(claims_view(a) == claims_view(b));
    let pa = claims_view(a)->Structured_1;
    let pb = claims_view(b)->Structured_1;
    assert(pa[0].1 == ValueView::Text(a.issuer@));
    assert(pb[0].1 == ValueView::Text(b.issuer@));
    assert(pa[3].1 == opt_u64_view(a.expires_at));
    assert(pb[3].1 == opt_u64_view(b.expires_at));
    lemma_opt_u64_view_injective(a.expires_at, b.expires_at);
    assert(pa[4].1 == opt_u64_view(a.not_before));
    lemma_opt_u64_view_injective(a.not_before, b.not_before);
}


} // verus!
