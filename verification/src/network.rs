//! The network facade: owns the schematic definitions, the provider
//! registry and the invocation entry point. Initialization validates every
//! schematic against the providers' reported signatures; requests construct
//! an invocation and run the scheduler.
use crate::claims::public_key_of_seed;
use crate::claims::seed_valid;
use crate::claims::pk_of;
use crate::packet::Entity;
use crate::packet::Invocation;
use crate::packet::PacketView;
use crate::schematic::edge_type_ok;
use crate::schematic::validate_model;
use crate::schematic::SchematicModel;
use crate::scheduler::execute_schematic;
use crate::scheduler::InvocationOutcome;
use crate::scheduler::Registry;
use crate::signature::ComponentSignature;
use crate::signature::ProviderSignature;
use crate::signature::SchematicSignature;
use vstd::prelude::*;

verus! {

/// Errors of the network facade.
#[derive(Debug)]
pub enum NetworkError {
    /// The facade was used before a successful initialization.
    NotStarted,
    /// No schematic of that name is defined.
    SchematicNotFound(String),
    /// Initialization found ill-typed edges: schematic index and the
    /// offending edge indices.
    InitializationFailed(Vec<(usize, Vec<usize>)>),
    /// The supplied seed does not decode to a key pair.
    InvalidSeed,
    /// The scheduler could not run the request.
    ExecutionError(String),
}

/// A running network: definitions, identity and providers.
pub struct Network {
    pub uid: String,
    pub definition: Vec<SchematicModel>,
    pub allow_latest: bool,
    pub allowed_insecure: Vec<String>,
    pub kp_seed: String,
    pub timeout_ms: u64,
    pub started: bool,
    pub registry: Registry,
    /// The next fresh invocation id.
    pub invocation_seq: u64,
}

/// Builds the configuration of a network.
pub struct NetworkBuilder {
    pub definition: Vec<SchematicModel>,
    pub allow_latest: bool,
    pub allowed_insecure: Vec<String>,
    pub kp_seed: String,
    pub uid: String,
    pub timeout_ms: u64,
}

impl NetworkBuilder {
    /// Starts a builder from a definition and the network's own seed; the
    /// network's uid is the seed's public key. Fails exactly when the seed
    /// does not decode.
    pub fn from_definition(definition: Vec<SchematicModel>, seed: &String) -> (r: Result<
        NetworkBuilder,
        NetworkError,
    >)
        ensures
            r is Ok <==> seed_valid(seed@),
            r matches Ok(b) ==> {
                &&& b.uid@ == pk_of(seed@)
                &&& b.kp_seed@ == seed@
                &&& b.allow_latest == false
                &&& b.allowed_insecure@.len() == 0
                &&& b.timeout_ms == 5000
                &&& b.definition == definition
            },
    {
        let uid = match public_key_of_seed(seed) {
            Some(pk) => pk,
            None => {
                return Err(NetworkError::InvalidSeed);
            },
        };
        Ok(
            NetworkBuilder {
                definition,
                allow_latest: false,
                allowed_insecure: Vec::new(),
                kp_seed: seed.clone(),
                uid,
                timeout_ms: 5000,
            },
        )
    }

    /// Replaces the invocation deadline.
    pub fn timeout(self, timeout_ms: u64) -> (r: NetworkBuilder)
        ensures
            r.timeout_ms == timeout_ms,
            r.uid == self.uid,
            r.kp_seed == self.kp_seed,
            r.allow_latest == self.allow_latest,
            r.allowed_insecure == self.allowed_insecure,
            r.definition == self.definition,
    {
        NetworkBuilder { timeout_ms, ..self }
    }

    /// Allows `latest` tags when fetching remote modules.
    pub fn allow_latest(self, allow_latest: bool) -> (r: NetworkBuilder)
        ensures
            r.allow_latest == allow_latest,
            r.uid == self.uid,
            r.kp_seed == self.kp_seed,
            r.timeout_ms == self.timeout_ms,
            r.allowed_insecure == self.allowed_insecure,
            r.definition == self.definition,
    {
        NetworkBuilder { allow_latest, ..self }
    }

    /// Allows plain-text registries for the named hosts.
    pub fn allow_insecure(self, allowed_insecure: Vec<String>) -> (r: NetworkBuilder)
        ensures
            r.allowed_insecure == allowed_insecure,
            r.uid == self.uid,
            r.kp_seed == self.kp_seed,
            r.timeout_ms == self.timeout_ms,
            r.allow_latest == self.allow_latest,
            r.definition == self.definition,
    {
        NetworkBuilder { allowed_insecure, ..self }
    }

    /// Constructs the network.
    pub fn build(self) -> (r: Network)
        ensures
            r.uid == self.uid,
            r.kp_seed == self.kp_seed,
            r.timeout_ms == self.timeout_ms,
            r.allow_latest == self.allow_latest,
            r.allowed_insecure == self.allowed_insecure,
            r.definition == self.definition,
            !r.started,
            r.registry.wf(),
            r.invocation_seq == 0,
    {
        Network {
            uid: self.uid,
            definition: self.definition,
            allow_latest: self.allow_latest,
            allowed_insecure: self.allowed_insecure,
            kp_seed: self.kp_seed,
            timeout_ms: self.timeout_ms,
            started: false,
            registry: Registry::new(),
            invocation_seq: 0,
        }
    }
}

/// What a run request asks for: logging verbosity, the manifest to load,
/// the schematic to target and the input data. The surrounding process
/// fills it from its arguments and environment.
#[derive(Debug)]
pub struct RunCommand {
    /// Turn on info logging.
    pub info: bool,
    /// Default schematic to run; overrides the manifest's own.
    pub default_schematic: Option<String>,
    /// Manifest file path.
    pub manifest: String,
    /// JSON input data, if not read from the standard input.
    pub data: Option<String>,
}

impl RunCommand {
    /// The schematic a run targets: the explicitly requested one, else the
    /// manifest's fallback.
    pub fn target_schematic(&self, manifest_default: &String) -> (r: String)
        ensures
            self.default_schematic matches Some(d) ==> r@ == d@,
            self.default_schematic is None ==> r@ == manifest_default@,
    {
        match &self.default_schematic {
            Some(d) => d.clone(),
            None => manifest_default.clone(),
        }
    }
}

/// What a failed initialization reports over the first `upto` schematics:
/// every listed schematic's edge list is nonempty and holds exactly its
/// ill-typed edges, and every schematic with an ill-typed edge is listed.
pub open spec fn init_failure_report_upto(
    bad: Seq<(usize, Vec<usize>)>,
    definition: Seq<SchematicModel>,
    sigs: Seq<(String, ComponentSignature)>,
    upto: int,
) -> bool {
    &&& forall|m: int|
        0 <= m < bad.len() ==> {
            let s = (#[trigger] bad[m]).0 as int;
            &&& s < definition.len()
            &&& bad[m].1@.len() > 0
            &&& forall|e: int|
                0 <= e < bad[m].1@.len() ==> (#[trigger] bad[m].1@[e])
                    < definition[s].edges@.len() && !edge_type_ok(
                    &definition[s],
                    sigs,
                    bad[m].1@[e] as int,
                )
            &&& forall|k: int|
                0 <= k < definition[s].edges@.len() && !edge_type_ok(&definition[s], sigs, k)
                    ==> bad[m].1@.contains(k as usize)
        }
    &&& forall|s: int, k: int|
        0 <= s < upto && 0 <= k < definition[s].edges@.len() && !(#[trigger] edge_type_ok(
            &definition[s],
            sigs,
            k,
        )) ==> exists|m: int| 0 <= m < bad.len() && (#[trigger] bad[m]).0 == s
}

/// The full failure report: exact per-schematic edge lists, covering the
/// whole definition.
pub open spec fn init_failure_report(
    bad: Seq<(usize, Vec<usize>)>,
    definition: Seq<SchematicModel>,
    sigs: Seq<(String, ComponentSignature)>,
) -> bool {
    init_failure_report_upto(bad, definition, sigs, definition.len() as int)
}

/// Every schematic of the definition is well-formed.
pub open spec fn definition_wf(definition: Seq<SchematicModel>) -> bool {
    forall|s: int| 0 <= s < definition.len() ==> (#[trigger] definition[s]).wf()
}

/// A deep copy of a payload: the same ports carrying the same bytes.
fn copy_payload(data: &Vec<(String, Vec<u8>)>) -> (r: Vec<(String, Vec<u8>)>)
    ensures
        r.deep_view() == data.deep_view(),
{
    let mut out: Vec<(String, Vec<u8>)> = Vec::new();
    let n = data.len();
    let mut i: usize = 0;
    while i < n
        invariant
            n == data@.len(),
            i <= n,
            out.deep_view() =~= data.deep_view().subrange(0, i as int),
        decreases n - i,
    {
        let ghost pre = out.deep_view();
        let port = data[i].0.clone();
        let bytes = data[i].1.clone();
        proof {
            assert(bytes@ =~= data@[i as int].1@);
            assert(bytes.deep_view() =~= data@[i as int].1@);
            assert(port.deep_view() == data@[i as int].0@);
        }
        out.push((port, bytes));
        proof {
            assert(out@.last().deep_view() == (data@[i as int].0@, data@[i as int].1@));
            assert(out.deep_view() =~= pre.push((data@[i as int].0@, data@[i as int].1@)));
            assert(data.deep_view().subrange(0, i + 1) =~= data.deep_view().subrange(
                0,
                i as int,
            ).push(data.deep_view()[i as int]));
            assert(data.deep_view()[i as int] == (data@[i as int].0@, data@[i as int].1@));
        }
        i = i + 1;
    }
    proof {
        assert(data.deep_view().subrange(0, n as int) =~= data.deep_view());
        assert(out.deep_view() =~= data.deep_view());
    }
    out
}

impl Network {
    /// A network over the given definition, identified by the seed's public
    /// key.
    pub fn new(definition: Vec<SchematicModel>, seed: &String) -> (r: Result<
        Network,
        NetworkError,
    >)
        ensures
            r is Ok <==> seed_valid(seed@),
            r matches Ok(n) ==> {
                &&& n.uid@ == pk_of(seed@)
                &&& !n.started
                &&& n.registry.wf()
                &&& n.definition == definition
                &&& n.timeout_ms == 5000
                &&& n.allow_latest == false
                &&& n.allowed_insecure@.len() == 0
                &&& n.invocation_seq == 0
            },
    {
        match NetworkBuilder::from_definition(definition, seed) {
            Ok(b) => Ok(b.build()),
            Err(e) => Err(e),
        }
    }

    /// Validates every schematic's edges against the reported signatures.
    /// Succeeds exactly when every edge of every schematic is well-typed;
    /// otherwise reports, per offending schematic, all offending edges.
    #[verifier::loop_isolation(false)]
    pub fn init(&mut self, sigs: &Vec<(String, ComponentSignature)>) -> (r: Result<
        (),
        NetworkError,
    >)
        requires
            definition_wf(old(self).definition@),
        ensures
            r is Ok <==> (forall|s: int, k: int|
                0 <= s < old(self).definition@.len() && 0 <= k < old(self).definition@[s].edges@.len()
                    ==> #[trigger] edge_type_ok(&old(self).definition@[s], sigs@, k)),
            r is Ok ==> final(self).started,
            r is Err ==> (r matches Err(NetworkError::InitializationFailed(bad))
                && init_failure_report(bad@, old(self).definition@, sigs@)),
            final(self).definition == old(self).definition,
            final(self).uid == old(self).uid,
    {
        let mut bad: Vec<(usize, Vec<usize>)> = Vec::new();
        let n = self.definition.len();
        let mut s: usize = 0;
        while s < n
            invariant
                n == self.definition@.len(),
                s <= n,
                definition_wf(self.definition@),
                bad@.len() == 0 <==> (forall|t: int, k: int|
                    0 <= t < s && 0 <= k < self.definition@[t].edges@.len()
                        ==> #[trigger] edge_type_ok(&self.definition@[t], sigs@, k)),
                forall|m: int| 0 <= m < bad@.len() ==> (#[trigger] bad@[m]).0 < s,
                init_failure_report_upto(bad@, self.definition@, sigs@, s as int),
            decreases n - s,
        {
            match validate_model(&self.definition[s], sigs) {
                Ok(()) => {
                    proof {
                        if bad@.len() == 0 {
                            assert forall|t: int, k: int|
                                0 <= t < s + 1 && 0 <= k < self.definition@[t].edges@.len()
                                    implies #[trigger] edge_type_ok(
                                &self.definition@[t],
                                sigs@,
                                k,
                            ) by {}
                        } else {
                            let (bt, bk) = choose|bt: int, bk: int|
                                0 <= bt < s && 0 <= bk < self.definition@[bt].edges@.len() && !(
                                #[trigger] edge_type_ok(&self.definition@[bt], sigs@, bk));
                            assert(!edge_type_ok(&self.definition@[bt], sigs@, bk));
                        }
                    }
                },
                Err(edges) => {
                    proof {
                        assert(edges@.len() > 0);
                        assert(!edge_type_ok(
                            &self.definition@[s as int],
                            sigs@,
                            edges@[0] as int,
                        ));
                    }
                    let ghost pre_bad = bad@;
                    bad.push((s, edges));
                    proof {
                        assert(bad@.last().0 == s);
                        assert(bad@.drop_last() =~= pre_bad);
                        assert forall|m: int| 0 <= m < bad@.len() implies {
                            let t = (#[trigger] bad@[m]).0 as int;
                            &&& t < self.definition@.len()
                            &&& bad@[m].1@.len() > 0
                            &&& forall|e: int|
                                0 <= e < bad@[m].1@.len() ==> (#[trigger] bad@[m].1@[e])
                                    < self.definition@[t].edges@.len() && !edge_type_ok(
                                    &self.definition@[t],
                                    sigs@,
                                    bad@[m].1@[e] as int,
                                )
                            &&& forall|k: int|
                                0 <= k < self.definition@[t].edges@.len() && !edge_type_ok(
                                    &self.definition@[t],
                                    sigs@,
                                    k,
                                ) ==> bad@[m].1@.contains(k as usize)
                        } by {
                            if m < pre_bad.len() {
                                assert(bad@[m] == pre_bad[m]);
                            } else {
                                assert(bad@[m] == (s, edges));
                            }
                        }
                        assert forall|t: int, k: int|
                            0 <= t < s + 1 && 0 <= k < self.definition@[t].edges@.len() && !(
                            #[trigger] edge_type_ok(&self.definition@[t], sigs@, k)) implies exists|
                            m: int,
                        |
                            0 <= m < bad@.len() && (#[trigger] bad@[m]).0 == t by {
                            if t < s as int {
                                if exists|m: int|
                                    0 <= m < pre_bad.len() && (#[trigger] pre_bad[m]).0 == t {
                                    let m = choose|m: int|
                                        0 <= m < pre_bad.len() && (#[trigger] pre_bad[m]).0 == t;
                                    assert(bad@[m].0 == t);
                                }
                            } else if t == s as int {
                                assert(bad@[bad@.len() - 1].0 == t);
                            }
                        }
                    }
                },
            }
            s = s + 1;
        }
        if bad.len() == 0 {
            self.started = true;
            Ok(())
        } else {
            proof {
                assert(self.definition@ == old(self).definition@);
                assert(init_failure_report(bad@, old(self).definition@, sigs@));
            }
            Err(NetworkError::InitializationFailed(bad))
        }
    }

    /// Runs one invocation against the named schematic: before `init` the
    /// request is refused, an unknown name is reported exactly, and any
    /// defined schematic of a started network is owed a run. The invocation
    /// record carries a fresh id, the caller's origin, the schematic target
    /// and the payload; the outcome carries the scheduler's guarantees for
    /// the matched schematic.
    #[verifier::loop_isolation(false)]
    pub fn request(&mut self, schematic: &String, origin: Entity, data: &Vec<(String, Vec<u8>)>)
        -> (r: Result<(Invocation, InvocationOutcome), NetworkError>)
        requires
            definition_wf(old(self).definition@),
            old(self).registry.wf(),
        ensures
            final(self).registry.wf(),
            final(self).definition == old(self).definition,
            !old(self).started ==> r matches Err(NetworkError::NotStarted),
            (old(self).started && (forall|t: int|
                0 <= t < old(self).definition@.len() ==> (#[trigger] old(
                    self,
                ).definition@[t]).name@ != schematic@)) ==> {
                &&& r matches Err(NetworkError::SchematicNotFound(m)) && m@ == schematic@
            },
            (old(self).started && (exists|t: int|
                0 <= t < old(self).definition@.len() && (#[trigger] old(
                    self,
                ).definition@[t]).name@ == schematic@)) ==> (r matches Ok(resp) && ({
                &&& resp.0.id == old(self).invocation_seq
                &&& final(self).invocation_seq == (if old(self).invocation_seq
                    < 0xffff_ffff_ffff_ffff {
                    (old(self).invocation_seq + 1) as u64
                } else {
                    old(self).invocation_seq
                })
                &&& resp.0.origin == origin
                &&& resp.0.target matches Entity::Schematic(nm) && nm@ == schematic@
                &&& resp.0.network_id@ == old(self).uid@
                &&& resp.0.payload.deep_view() == data.deep_view()
                &&& exists|t: int|
                    {
                        &&& 0 <= t < old(self).definition@.len()
                        &&& (#[trigger] old(self).definition@[t]).name@ == schematic@
                        &&& resp.1.completed == crate::scheduler::all_outputs_done(
                            resp.1.output@,
                            old(self).definition@[t].outputs@,
                        )
                        &&& crate::scheduler::payload_passthrough(
                            resp.1.output@,
                            old(self).definition@[t].edges@,
                            data@,
                            data@.len() as int,
                        )
                    }
                &&& !resp.1.completed ==> resp.1.error
                &&& resp.1.error ==> resp.1.output@.len() > 0 && resp.1.output@.last().packet@
                    is Error
                &&& resp.1.timed_out ==> resp.1.output@.last().packet@ == PacketView::Error(
                    "timeout"@,
                )
            })),
    {
        if !self.started {
            return Err(NetworkError::NotStarted);
        }
        let n = self.definition.len();
        let mut s: usize = 0;
        while s < n
            invariant
                n == self.definition@.len(),
                s <= n,
                self.definition == old(self).definition,
                self.started == old(self).started,
                self.timeout_ms == old(self).timeout_ms,
                self.uid == old(self).uid,
                self.invocation_seq == old(self).invocation_seq,
                definition_wf(self.definition@),
                self.registry.wf(),
                forall|t: int|
                    0 <= t < s ==> (#[trigger] self.definition@[t]).name@ != schematic@,
            decreases n - s,
        {
            if self.definition[s].name == *schematic {
                let inv = Invocation {
                    id: self.invocation_seq,
                    origin,
                    target: Entity::Schematic(schematic.clone()),
                    payload: copy_payload(data),
                    network_id: self.uid.clone(),
                };
                if self.invocation_seq < 0xffff_ffff_ffff_ffff {
                    self.invocation_seq = self.invocation_seq + 1;
                }
                let steps = if self.timeout_ms > 10000 {
                    10000
                } else {
                    self.timeout_ms
                };
                let model = &self.definition[s];
                let outcome = execute_schematic(model, &mut self.registry, data, steps as usize);
                proof {
                    assert(0 <= s < old(self).definition@.len() && old(self).definition@[
                        s as int].name@ == schematic@);
                }
                return Ok((inv, outcome));
            }
            s = s + 1;
        }
        Err(NetworkError::SchematicNotFound(schematic.clone()))
    }

    /// The signatures of the schematics this network serves: each name and
    /// its external ports, exactly as the definition declares them. The
    /// model embeds no provider signatures, so the reported lists are empty.
    pub fn list_schematics(&self) -> (r: Vec<SchematicSignature>)
        ensures
            r@.len() == self.definition@.len(),
            forall|t: int|
                0 <= t < r@.len() ==> {
                    let sig = #[trigger] r@[t];
                    &&& sig.name@ == self.definition@[t].name@
                    &&& ports_views(sig.inputs@) == ports_views(self.definition@[t].inputs@)
                    &&& ports_views(sig.outputs@) == ports_views(self.definition@[t].outputs@)
                    &&& sig.providers@.len() == 0
                },
    {
        let mut out: Vec<SchematicSignature> = Vec::new();
        let n = self.definition.len();
        let mut s: usize = 0;
        while s < n
            invariant
                n == self.definition@.len(),
                s <= n,
                out@.len() == s,
                forall|t: int|
                    0 <= t < s ==> {
                        let sig = #[trigger] out@[t];
                        &&& sig.name@ == self.definition@[t].name@
                        &&& ports_views(sig.inputs@) == ports_views(self.definition@[t].inputs@)
                        &&& ports_views(sig.outputs@) == ports_views(
                            self.definition@[t].outputs@,
                        )
                        &&& sig.providers@.len() == 0
                    },
            decreases n - s,
        {
            let m = &self.definition[s];
            out.push(
                SchematicSignature {
                    name: m.name.clone(),
                    inputs: copy_ports(&m.inputs),
                    outputs: copy_ports(&m.outputs),
                    providers: Vec::<ProviderSignature>::new(),
                },
            );
            s = s + 1;
        }
        out
    }
}

/// The name and type characters of each port, in order.
pub open spec fn ports_views(ps: Seq<crate::signature::PortSignature>) -> Seq<
    (Seq<char>, Seq<char>),
> {
    ps.map_values(|p: crate::signature::PortSignature| (p.name@, p.type_string@))
}

/// A copy of a port list with the same names and types.
fn copy_ports(ps: &Vec<crate::signature::PortSignature>) -> (r: Vec<
    crate::signature::PortSignature,
>)
    ensures
        ports_views(r@) == ports_views(ps@),
{
    let mut out: Vec<crate::signature::PortSignature> = Vec::new();
    let n = ps.len();
    let mut i: usize = 0;
    while i < n
        invariant
            n == ps@.len(),
            i <= n,
            out@.len() == i,
            forall|j: int|
                0 <= j < i ==> (#[trigger] out@[j]).name@ == ps@[j].name@
                    && out@[j].type_string@ == ps@[j].type_string@,
        decreases n - i,
    {
        out.push(
            crate::signature::PortSignature::new(ps[i].name.clone(), ps[i].type_string.clone()),
        );
        i = i + 1;
    }
    proof {
        assert(ports_views(out@) =~= ports_views(ps@));
    }
    out
}

} // verus!
