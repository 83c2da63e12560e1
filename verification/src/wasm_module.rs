//! The wasm component host's verified core: extracting and checking the
//! signed claims section of a module, and turning a guest call's host-writes
//! and exit status into the packet stream the scheduler consumes.
use crate::claims::enc_claims;
use crate::claims::token_bytes;
use crate::claims::well_signed;
use crate::claims::verify_ok;
use crate::claims::verify_token;
use crate::claims::window_ok;
use crate::claims::Claims;
use crate::claims::ClaimsError;
use crate::packet::Packet;
use crate::packet::PacketView;
use crate::packet::PortPacket;
use vstd::prelude::*;

verus! {

/// Reads one unsigned LEB128 number (at most five bytes, as wasm uses for
/// 32-bit sizes); returns the value and the position after it.
fn read_leb_u32(b: &Vec<u8>, pos: usize) -> (r: Option<(u32, usize)>)
    requires
        pos <= b@.len(),
    ensures
        r matches Some((v, end)) ==> pos < end <= b@.len(),
{
    let mut value: u32 = 0;
    let mut shift: u32 = 0;
    let mut cur: usize = pos;
    loop
        invariant
            pos <= cur <= b@.len(),
            shift <= 35,
            shift % 7 == 0,
        decreases 35 - shift,
    {
        if cur >= b.len() {
            return None;
        }
        if shift >= 35 {
            return None;
        }
        let byte = b[cur];
        let low: u32 = (byte & 0x7f) as u32;
        if shift <= 24 {
            value = value | (low << shift);
        } else {
            if low > 0xf {
                return None;
            }
            value = value | (low << shift);
        }
        cur = cur + 1;
        if byte & 0x80 == 0 {
            return Some((value, cur));
        }
        shift = shift + 7;
    }
}

/// The name of the custom section that carries the signed token, as its
/// byte string.
pub fn claims_section_name() -> (r: Vec<u8>)
    ensures
        r@.len() == 11,
        r@ == "vino.claims"@.map_values(|c: char| c as u8),
{
    let mut v: Vec<u8> = Vec::new();
    v.push(118);
    v.push(105);
    v.push(110);
    v.push(111);
    v.push(46);
    v.push(99);
    v.push(108);
    v.push(97);
    v.push(105);
    v.push(109);
    v.push(115);
    proof {
        reveal_strlit("vino.claims");
        assert(v@ =~= "vino.claims"@.map_values(|c: char| c as u8));
    }
    v
}

/// Walks the module's sections and returns the payload of the custom section
/// carrying the claims token, if the module parses and such a section exists.
#[verifier::loop_isolation(false)]
pub fn extract_claims_bytes(module: &Vec<u8>) -> (r: Option<Vec<u8>>)
{
    if module.len() < 8 {
        return None;
    }
    if !(module[0] == 0 && module[1] == 97 && module[2] == 115 && module[3] == 109) {
        return None;
    }
    let want = claims_section_name();
    let mut pos: usize = 8;
    while pos < module.len()
        invariant
            pos <= module@.len(),
        decreases module@.len() - pos,
    {
        let _section_id = module[pos];
        let is_custom = module[pos] == 0;
        let after_id = pos + 1;
        if after_id > module.len() {
            return None;
        }
        let (size, body_start) = match read_leb_u32(module, after_id) {
            Some(x) => x,
            None => {
                return None;
            },
        };
        let remaining = module.len() - body_start;
        if size as usize > remaining {
            return None;
        }
        let body_end = body_start + size as usize;
        if is_custom {
            match read_leb_u32(module, body_start) {
                Some((name_len, name_start)) => {
                    if name_len == 11 && module.len() - name_start >= 11 && body_end >= name_start
                        && body_end - name_start >= 11 {
                        let name_end = name_start + 11;
                        if name_end <= body_end && name_end <= module.len() {
                            let mut matches_name = true;
                            let mut i: usize = 0;
                            while i < 11
                                invariant
                                    i <= 11,
                                    name_start + 11 <= module@.len(),
                                    want@.len() == 11,
                                decreases 11 - i,
                            {
                                if module[name_start + i] != want[i] {
                                    matches_name = false;
                                }
                                i = i + 1;
                            }
                            if matches_name {
                                let token = vstd::slice::slice_to_vec(
                                    vstd::slice::slice_subrange(
                                        module.as_slice(),
                                        name_end,
                                        body_end,
                                    ),
                                );
                                return Some(token);
                            }
                        }
                    }
                },
                None => {
                    return None;
                },
            }
        }
        if body_end <= pos {
            return None;
        }
        pos = body_end;
    }
    None
}

/// The unsigned LEB128 encoding of a number: seven bits per byte, low bits
/// first, the high bit marking continuation.
pub open spec fn leb_bytes(v: u32) -> Seq<u8>
    decreases v via leb_bytes_decreases
{
    if v < 0x80 {
        seq![v as u8]
    } else {
        seq![(v & 0x7f | 0x80) as u8] + leb_bytes(v >> 7)
    }
}

#[via_fn]
proof fn leb_bytes_decreases(v: u32) {
    assert(v >= 0x80 ==> (v >> 7) < v) by (bit_vector);
}

/// The claims custom section as bytes: the custom-section id, the LEB-coded
/// body size, the counted section name, then the token.
pub open spec fn claims_section_bytes(token: Seq<u8>) -> Seq<u8> {
    seq![0u8] + leb_bytes((12 + token.len()) as u32) + seq![11u8] + "vino.claims"@.map_values(
        |c: char| c as u8,
    ) + token
}

/// Appends the claims custom section to a module's bytes; the section is the
/// last of the module, so a loader walking the sections finds it. Fails only
/// on a token too large for a section.
pub fn embed_claims_bytes(module: &Vec<u8>, token: &Vec<u8>) -> (r: Option<Vec<u8>>)
    ensures
        r is Some <==> token@.len() <= 0x0fff_ffff,
        r matches Some(out) ==> out@ == module@ + claims_section_bytes(token@),
{
    if token.len() > 0x0fff_ffff {
        return None;
    }
    let mut out = module.clone();
    proof {
        assert(out@ =~= module@);
    }
    out.push(0);
    let name = claims_section_name();
    let body_len: usize = 1 + 11 + token.len();
    push_leb_u32(&mut out, body_len as u32);
    out.push(11);
    let mut ncopy = name;
    out.append(&mut ncopy);
    let mut tcopy = token.clone();
    proof {
        assert(tcopy@ =~= token@);
        reveal_strlit("vino.claims");
    }
    out.append(&mut tcopy);
    proof {
        assert(out@ =~= module@ + claims_section_bytes(token@));
    }
    Some(out)
}

/// Writes one unsigned LEB128 number (at most five bytes for 32 bits).
fn push_leb_u32(out: &mut Vec<u8>, v: u32)
    ensures
        final(out)@ == old(out)@ + leb_bytes(v),
{
    let b0: u8 = (v & 0x7f) as u8;
    let r1 = v >> 7;
    if r1 == 0 {
        proof {
            assert(v >> 7 == 0 ==> v < 0x80) by (bit_vector);
            assert(v < 0x80 ==> (v & 0x7f) as u8 == v as u8) by (bit_vector);
        }
        out.push(b0);
        proof {
            assert(out@ =~= old(out)@ + leb_bytes(v));
        }
        return ;
    }
    proof {
        assert(v >> 7 != 0 ==> v >= 0x80) by (bit_vector);
        assert(((v & 0x7f) as u8) | 0x80 == (v & 0x7f | 0x80) as u8) by (bit_vector);
    }
    out.push(b0 | 0x80);
    let b1: u8 = (r1 & 0x7f) as u8;
    let r2 = r1 >> 7;
    if r2 == 0 {
        proof {
            let r1g = v >> 7;
            assert(r1g >> 7 == 0 ==> r1g < 0x80) by (bit_vector);
            assert(r1g < 0x80 ==> (r1g & 0x7f) as u8 == r1g as u8) by (bit_vector);
        }
        out.push(b1);
        proof {
            assert(leb_bytes(v >> 7) =~= seq![(v >> 7) as u8]);
            assert(out@ =~= old(out)@ + leb_bytes(v));
        }
        return ;
    }
    proof {
        let r1g = v >> 7;
        assert(r1g >> 7 != 0 ==> r1g >= 0x80) by (bit_vector);
        assert(((r1g & 0x7f) as u8) | 0x80 == (r1g & 0x7f | 0x80) as u8) by (bit_vector);
    }
    out.push(b1 | 0x80);
    let b2: u8 = (r2 & 0x7f) as u8;
    let r3 = r2 >> 7;
    if r3 == 0 {
        proof {
            let r2g = (v >> 7) >> 7;
            assert(r2g >> 7 == 0 ==> r2g < 0x80) by (bit_vector);
            assert(r2g < 0x80 ==> (r2g & 0x7f) as u8 == r2g as u8) by (bit_vector);
        }
        out.push(b2);
        proof {
            assert(leb_bytes((v >> 7) >> 7) =~= seq![((v >> 7) >> 7) as u8]);
            assert(leb_bytes(v >> 7) =~= seq![((v >> 7) & 0x7f | 0x80) as u8] + leb_bytes(
                (v >> 7) >> 7,
            ));
            assert(out@ =~= old(out)@ + leb_bytes(v));
        }
        return ;
    }
    proof {
        let r2g = (v >> 7) >> 7;
        assert(r2g >> 7 != 0 ==> r2g >= 0x80) by (bit_vector);
        assert(((r2g & 0x7f) as u8) | 0x80 == (r2g & 0x7f | 0x80) as u8) by (bit_vector);
    }
    out.push(b2 | 0x80);
    let b3: u8 = (r3 & 0x7f) as u8;
    let r4 = r3 >> 7;
    if r4 == 0 {
        proof {
            let r3g = ((v >> 7) >> 7) >> 7;
            assert(r3g >> 7 == 0 ==> r3g < 0x80) by (bit_vector);
            assert(r3g < 0x80 ==> (r3g & 0x7f) as u8 == r3g as u8) by (bit_vector);
        }
        out.push(b3);
        proof {
            assert(leb_bytes(((v >> 7) >> 7) >> 7) =~= seq![(((v >> 7) >> 7) >> 7) as u8]);
            assert(leb_bytes((v >> 7) >> 7) =~= seq![
                (((v >> 7) >> 7) & 0x7f | 0x80) as u8,
            ] + leb_bytes(((v >> 7) >> 7) >> 7));
            assert(leb_bytes(v >> 7) =~= seq![((v >> 7) & 0x7f | 0x80) as u8] + leb_bytes(
                (v >> 7) >> 7,
            ));
            assert(out@ =~= old(out)@ + leb_bytes(v));
        }
        return ;
    }
    proof {
        let r3g = ((v >> 7) >> 7) >> 7;
        assert(r3g >> 7 != 0 ==> r3g >= 0x80) by (bit_vector);
        assert(((r3g & 0x7f) as u8) | 0x80 == (r3g & 0x7f | 0x80) as u8) by (bit_vector);
    }
    out.push(b3 | 0x80);
    let r4g: u32 = r4;
    proof {
        assert((((((v >> 7) >> 7) >> 7) >> 7) >> 7) == 0) by (bit_vector);
        assert(r4g >> 7 == 0 ==> r4g < 0x80) by (bit_vector);
        assert(r4g < 0x80 ==> (r4g & 0x7f) as u8 == r4g as u8) by (bit_vector);
    }
    out.push((r4 & 0x7f) as u8);
    proof {
        let v1 = v >> 7;
        let v2 = v1 >> 7;
        let v3 = v2 >> 7;
        let v4 = v3 >> 7;
        assert(leb_bytes(v4) =~= seq![v4 as u8]);
        assert(leb_bytes(v3) =~= seq![(v3 & 0x7f | 0x80) as u8] + leb_bytes(v4));
        assert(leb_bytes(v2) =~= seq![(v2 & 0x7f | 0x80) as u8] + leb_bytes(v3));
        assert(leb_bytes(v1) =~= seq![(v1 & 0x7f | 0x80) as u8] + leb_bytes(v2));
        assert(out@ =~= old(out)@ + leb_bytes(v));
    }
}

/// A loaded, signature-verified wasm module: its verified claims, the token
/// they were verified from, and the module's raw bytes.
#[derive(Debug)]
pub struct WapcModule {
    pub claims: Claims,
    pub token: Vec<u8>,
    pub bytes: Vec<u8>,
}

impl WapcModule {
    /// Builds a verified module from a claims token and the module bytes it
    /// was embedded in: the token must parse, its signature must verify
    /// under its embedded issuer key, and its validity window must contain
    /// `now` — and any correctly signed, currently valid token is accepted.
    pub fn from_token(token: &Vec<u8>, bytes: Vec<u8>, now: u64) -> (r: Result<
        WapcModule,
        ClaimsError,
    >)
        ensures
            r matches Ok(m) ==> {
                &&& m.bytes@ == bytes@
                &&& m.token@ == token@
                &&& exists|sig: Seq<u8>|
                    m.token@ == token_bytes(enc_claims(&m.claims), sig) && #[trigger] verify_ok(
                        m.claims.issuer@,
                        enc_claims(&m.claims),
                        sig,
                    )
                &&& window_ok(m.claims.expires_at, m.claims.not_before, now)
            },
            forall|c2: Claims, sig: Seq<u8>|
                #[trigger] well_signed(token@, &c2, sig, now) ==> r is Ok,
    {
        let claims = match verify_token(token, now) {
            Ok(c) => c,
            Err(e) => {
                return Err(e);
            },
        };
        let tcopy = token.clone();
        proof {
            assert(tcopy@ =~= token@);
        }
        Ok(WapcModule { claims, token: tcopy, bytes })
    }

    /// Loads a module from its bytes at time `now`: extracts the embedded
    /// claims token, verifies its signature against the embedded issuer key
    /// and checks its validity window. A module with a missing, malformed,
    /// expired, not-yet-valid or improperly signed claims section is
    /// rejected; anything accepted carries faithfully decoded, correctly
    /// signed, currently valid claims, verified from the token the module
    /// carries.
    pub fn from_slice(buf: &Vec<u8>, now: u64) -> (r: Result<WapcModule, ClaimsError>)
        ensures
            r matches Ok(m) ==> {
                &&& m.bytes@ == buf@
                &&& exists|sig: Seq<u8>|
                    m.token@ == token_bytes(enc_claims(&m.claims), sig) && #[trigger] verify_ok(
                        m.claims.issuer@,
                        enc_claims(&m.claims),
                        sig,
                    )
                &&& window_ok(m.claims.expires_at, m.claims.not_before, now)
            },
    {
        let token = match extract_claims_bytes(buf) {
            Some(t) => t,
            None => {
                return Err(ClaimsError::Malformed);
            },
        };
        WapcModule::from_token(&token, buf.clone(), now)
    }

    /// The issuer's public key, as it stands in the verified token.
    pub fn issuer(&self) -> (r: String)
        ensures
            r@ == self.claims.issuer@,
    {
        self.claims.issuer.clone()
    }

    /// The module's own public key: the token's subject.
    pub fn public_key(&self) -> (r: String)
        ensures
            r@ == self.claims.subject@,
    {
        self.claims.subject.clone()
    }

    /// A globally referenceable id for this component.
    pub fn id(&self) -> (r: String)
        ensures
            r@ == self.claims.subject@,
    {
        self.public_key()
    }

    /// The module's human-friendly display name.
    pub fn name(&self) -> (r: String)
        ensures
            r@ == self.claims.name@,
    {
        self.claims.name.clone()
    }

    /// The tags of the verified token.
    pub fn tags(&self) -> (r: Vec<String>)
        ensures
            r.deep_view() == self.claims.tags.deep_view(),
    {
        let r = self.claims.tags.clone();
        proof {
            assert(r.deep_view() =~= self.claims.tags.deep_view());
        }
        r
    }
}

/// How a guest call ended.
#[derive(Debug)]
pub enum GuestOutcome {
    /// The guest returned success.
    Succeeded,
    /// The guest returned failure.
    Failed,
    /// The guest trapped with the given code.
    Trapped(u64),
}

/// The packets one guest call contributes to the invocation's stream: the
/// host-writes in call order, then — on success — `Done` on every declared
/// output; on guest failure, an `Error` then `Done` on every declared
/// output; on a trap, a single `Error` aborting the stream.
pub open spec fn guest_stream(
    writes: Seq<(Seq<char>, PacketView)>,
    outputs: Seq<Seq<char>>,
    outcome: GuestOutcome,
    fail_msg: Seq<char>,
    trap_msg: Seq<char>,
) -> Seq<(Seq<char>, PacketView)> {
    match outcome {
        GuestOutcome::Succeeded => writes + outputs.map_values(
            |p: Seq<char>| (p, PacketView::Done),
        ),
        GuestOutcome::Failed => writes + outputs.map_values(
            |p: Seq<char>| (p, PacketView::Error(fail_msg)),
        ) + outputs.map_values(|p: Seq<char>| (p, PacketView::Done)),
        GuestOutcome::Trapped(_) => writes + seq![
            (Seq::<char>::empty(), PacketView::Error(trap_msg)),
        ],
    }
}

/// Turns a guest call's host-writes and exit status into the packet stream
/// downstream consumers see.
#[verifier::loop_isolation(false)]
pub fn guest_call_packets(
    writes: Vec<PortPacket>,
    declared_outputs: &Vec<String>,
    outcome: &GuestOutcome,
    fail_msg: &String,
    trap_msg: &String,
) -> (r: Vec<PortPacket>)
    ensures
        r.deep_view() == guest_stream(
            writes.deep_view(),
            declared_outputs.deep_view(),
            *outcome,
            fail_msg@,
            trap_msg@,
        ),
{
    let mut out = writes;
    let ghost w0 = out.deep_view();
    match outcome {
        GuestOutcome::Succeeded => {
            let n = declared_outputs.len();
            let mut i: usize = 0;
            while i < n
                invariant
                    i <= n,
                    out.deep_view() =~= w0 + declared_outputs.deep_view().subrange(
                        0,
                        i as int,
                    ).map_values(|p: Seq<char>| (p, PacketView::Done)),
                decreases n - i,
            {
                let ghost pre_deep = out.deep_view();
                out.push(PortPacket { port: declared_outputs[i].clone(), packet: Packet::Done });
                proof {
                    assert(declared_outputs.deep_view()[i as int] == declared_outputs@[
                        i as int]@);
                    assert(out.deep_view() =~= pre_deep.push(
                        (declared_outputs.deep_view()[i as int], PacketView::Done),
                    ));
                    lemma_map_take_step(declared_outputs.deep_view(), i as int, |p: Seq<char>|
                        (p, PacketView::Done));
                }
                i = i + 1;
            }
            proof {
                assert(declared_outputs.deep_view().subrange(0, n as int)
                    =~= declared_outputs.deep_view());
                assert(out.deep_view() =~= guest_stream(
                    w0,
                    declared_outputs.deep_view(),
                    *outcome,
                    fail_msg@,
                    trap_msg@,
                ));
            }
        },
        GuestOutcome::Failed => {
            let n = declared_outputs.len();
            let mut i: usize = 0;
            while i < n
                invariant
                    i <= n,
                    out.deep_view() =~= w0 + declared_outputs.deep_view().subrange(
                        0,
                        i as int,
                    ).map_values(|p: Seq<char>| (p, PacketView::Error(fail_msg@))),
                decreases n - i,
            {
                let ghost pre_deep = out.deep_view();
                out.push(
                    PortPacket {
                        port: declared_outputs[i].clone(),
                        packet: Packet::Error(fail_msg.clone()),
                    },
                );
                proof {
                    assert(declared_outputs.deep_view()[i as int] == declared_outputs@[
                        i as int]@);
                    assert(out.deep_view() =~= pre_deep.push(
                        (declared_outputs.deep_view()[i as int], PacketView::Error(fail_msg@)),
                    ));
                    lemma_map_take_step(declared_outputs.deep_view(), i as int, |p: Seq<char>|
                        (p, PacketView::Error(fail_msg@)));
                }
                i = i + 1;
            }
            let ghost mid = out.deep_view();
            let mut j: usize = 0;
            while j < n
                invariant
                    j <= n,
                    out.deep_view() =~= mid + declared_outputs.deep_view().subrange(
                        0,
                        j as int,
                    ).map_values(|p: Seq<char>| (p, PacketView::Done)),
                decreases n - j,
            {
                let ghost pre_deep = out.deep_view();
                out.push(PortPacket { port: declared_outputs[j].clone(), packet: Packet::Done });
                proof {
                    assert(declared_outputs.deep_view()[j as int] == declared_outputs@[
                        j as int]@);
                    assert(out.deep_view() =~= pre_deep.push(
                        (declared_outputs.deep_view()[j as int], PacketView::Done),
                    ));
                    lemma_map_take_step(declared_outputs.deep_view(), j as int, |p: Seq<char>|
                        (p, PacketView::Done));
                }
                j = j + 1;
            }
            proof {
                assert(declared_outputs.deep_view().subrange(0, n as int)
                    =~= declared_outputs.deep_view());
                assert(out.deep_view() =~= guest_stream(
                    w0,
                    declared_outputs.deep_view(),
                    *outcome,
                    fail_msg@,
                    trap_msg@,
                ));
            }
        },
        GuestOutcome::Trapped(_) => {
            out.push(PortPacket { port: String::new(), packet: Packet::Error(trap_msg.clone()) });
            proof {
                assert(out.deep_view() =~= guest_stream(
                    w0,
                    declared_outputs.deep_view(),
                    *outcome,
                    fail_msg@,
                    trap_msg@,
                ));
            }
        },
    }
    out
}

proof fn lemma_map_take_step<B>(s: Seq<Seq<char>>, i: int, f: spec_fn(Seq<char>) -> B)
    requires
        0 <= i < s.len(),
    ensures
        s.subrange(0, i + 1).map_values(f) == s.subrange(0, i).map_values(f).push(f(s[i])),
{
    assert(s.subrange(0, i + 1).map_values(f) =~= s.subrange(0, i).map_values(f).push(f(s[i])));
}

} // verus!
