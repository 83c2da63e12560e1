//! The schematic scheduler: builds the per-invocation context, injects the
//! payload, repeatedly fires ready nodes through the provider registry, and
//! completes when every output edge has delivered `Done` — or terminates the
//! stream with a single error when the invocation latched or starved.
use crate::codec::decode;
use crate::codec::CodecError;
use crate::codec::encode_value_into;
use crate::codec::TypeTag;
use crate::codec::Value;
use crate::codec::ValueView;
use crate::packet::Packet;
use crate::packet::PacketView;
use crate::packet::PortPacket;
use crate::providers::AuthState;
use crate::providers::ProviderError;
use crate::providers::State;
use crate::router::spec_has_buf;
use crate::router::Edge;
use crate::router::PortBuffer;
use crate::router::RouterState;
use crate::schematic::SchematicModel;
use crate::signature::ComponentSignature;
use crate::signature::PortSignature;
use crate::SCHEMATIC_INPUT;
use crate::SCHEMATIC_OUTPUT;
use vstd::prelude::*;

verus! {

/// The map of per-component call counts a counter list denotes.
pub open spec fn calls_map(s: Seq<(String, u64)>) -> Map<Seq<char>, u64> {
    crate::assoc::assoc_map(s)
}

/// One more observed call of `name`: the count grows by one, saturating at
/// the counter's width.
pub open spec fn bumped(m: Map<Seq<char>, u64>, name: Seq<char>) -> Map<Seq<char>, u64> {
    m.insert(
        name,
        if m.contains_key(name) {
            if m[name] < 0xffff_ffff_ffff_ffff {
                (m[name] + 1) as u64
            } else {
                m[name]
            }
        } else {
            1u64
        },
    )
}

/// The native providers an invocation may reach.
pub struct Registry {
    pub collection: State,
    pub auth: AuthState,
    /// Calls observed so far, one counter per invoked component.
    pub calls: Vec<(String, u64)>,
}

impl Registry {
    pub open spec fn wf(&self) -> bool {
        self.collection.wf() && self.auth.wf() && crate::assoc::assoc_unique(self.calls@)
    }

    /// An empty registry: no documents, no users, no sessions, no
    /// permissions, no calls observed.
    pub fn new() -> (r: Registry)
        ensures
            r.wf(),
            crate::providers::string_map(r.collection.documents@) == Map::<
                Seq<char>,
                Seq<char>,
            >::empty(),
            crate::providers::string_list_map(r.collection.collections@) == Map::<
                Seq<char>,
                Seq<Seq<char>>,
            >::empty(),
            crate::providers::users_map(r.auth.users@) == Map::<Seq<char>, Seq<char>>::empty(),
            crate::providers::string_map(r.auth.sessions@) == Map::<Seq<char>, Seq<char>>::empty(),
            crate::providers::string_list_map(r.auth.permissions@) == Map::<
                Seq<char>,
                Seq<Seq<char>>,
            >::empty(),
            calls_map(r.calls@) == Map::<Seq<char>, u64>::empty(),
    {
        let r = Registry { collection: State::new(), auth: AuthState::new(), calls: Vec::new() };
        proof {
            assert(calls_map(r.calls@) =~= Map::<Seq<char>, u64>::empty());
        }
        r
    }

    /// Records one call of the named component.
    fn record_call(&mut self, component: &String)
        requires
            old(self).wf(),
        ensures
            final(self).wf(),
            final(self).collection == old(self).collection,
            final(self).auth == old(self).auth,
            calls_map(final(self).calls@) == bumped(calls_map(old(self).calls@), component@),
    {
        let next: u64 = match crate::assoc::assoc_get(&self.calls, component) {
            Some(n) => {
                if *n < 0xffff_ffff_ffff_ffff {
                    *n + 1
                } else {
                    *n
                }
            },
            None => 1,
        };
        crate::assoc::assoc_put(&mut self.calls, component.clone(), next);
    }

    /// Per-component call statistics: the exact number of calls observed for
    /// the named component, or one entry per invoked component; durations
    /// are not yet measured and report zero.
    pub fn get_stats(&self, id: Option<String>) -> (r: Vec<crate::signature::Statistics>)
        ensures
            id matches Some(name) ==> r@.len() == 1 && r@[0].num_calls == (if calls_map(
                self.calls@,
            ).contains_key(name@) {
                calls_map(self.calls@)[name@]
            } else {
                0u64
            }),
            id is None ==> r@.len() == self.calls@.len() && (forall|i: int|
                0 <= i < r@.len() ==> (#[trigger] r@[i]).num_calls == self.calls@[i].1),
            forall|i: int|
                0 <= i < r@.len() ==> {
                    let d = (#[trigger] r@[i]).execution_duration;
                    d.max_time == 0 && d.min_time == 0 && d.average == 0
                },
    {
        let mut out: Vec<crate::signature::Statistics> = Vec::new();
        match id {
            Some(name) => {
                let num_calls: u64 = match crate::assoc::assoc_get(&self.calls, &name) {
                    Some(n) => *n,
                    None => 0,
                };
                out.push(
                    crate::signature::Statistics {
                        num_calls,
                        execution_duration: crate::signature::ExecutionStatistics {
                            max_time: 0,
                            min_time: 0,
                            average: 0,
                        },
                    },
                );
            },
            None => {
                let n = self.calls.len();
                let mut i: usize = 0;
                while i < n
                    invariant
                        n == self.calls@.len(),
                        i <= n,
                        out@.len() == i,
                        forall|j: int|
                            0 <= j < i ==> (#[trigger] out@[j]).num_calls == self.calls@[j].1
                                && out@[j].execution_duration.max_time == 0
                                && out@[j].execution_duration.min_time == 0
                                && out@[j].execution_duration.average == 0,
                    decreases n - i,
                {
                    out.push(
                        crate::signature::Statistics {
                            num_calls: self.calls[i].1,
                            execution_duration: crate::signature::ExecutionStatistics {
                                max_time: 0,
                                min_time: 0,
                                average: 0,
                            },
                        },
                    );
                    i = i + 1;
                }
            },
        }
        out
    }
}


/// The components the native registry hosts, with their declared
/// interfaces, in declaration order.
pub fn registry_signatures() -> (r: Vec<(String, ComponentSignature)>)
    ensures
        r@.len() == 15,
        r@[0].0@ == "test-component"@,
        r@[0].1.name@ == "test-component"@,
        r@[0].1.inputs@.len() == 1,
        r@[0].1.outputs@.len() == 1,
        r@[0].1.inputs@[0].name@ == "input"@,
        r@[0].1.inputs@[0].type_string@ == "string"@,
        r@[0].1.outputs@[0].name@ == "output"@,
        r@[0].1.outputs@[0].type_string@ == "string"@,
        r@[1].0@ == "error"@,
        r@[1].1.name@ == "error"@,
        r@[1].1.inputs@.len() == 1,
        r@[1].1.outputs@.len() == 1,
        r@[1].1.inputs@[0].name@ == "input"@,
        r@[1].1.inputs@[0].type_string@ == "string"@,
        r@[1].1.outputs@[0].name@ == "output"@,
        r@[1].1.outputs@[0].type_string@ == "string"@,
        r@[2].0@ == "reverse"@,
        r@[2].1.name@ == "reverse"@,
        r@[2].1.inputs@.len() == 1,
        r@[2].1.outputs@.len() == 1,
        r@[2].1.inputs@[0].name@ == "input"@,
        r@[2].1.inputs@[0].type_string@ == "string"@,
        r@[2].1.outputs@[0].name@ == "output"@,
        r@[2].1.outputs@[0].type_string@ == "string"@,
        r@[3].0@ == "add-item"@,
        r@[3].1.name@ == "add-item"@,
        r@[3].1.inputs@.len() == 3,
        r@[3].1.outputs@.len() == 1,
        r@[3].1.inputs@[0].name@ == "document_id"@,
        r@[3].1.inputs@[0].type_string@ == "string"@,
        r@[3].1.inputs@[1].name@ == "collection_id"@,
        r@[3].1.inputs@[1].type_string@ == "string"@,
        r@[3].1.inputs@[2].name@ == "document"@,
        r@[3].1.inputs@[2].type_string@ == "string"@,
        r@[3].1.outputs@[0].name@ == "document_id"@,
        r@[3].1.outputs@[0].type_string@ == "string"@,
        r@[4].0@ == "get-item"@,
        r@[4].1.name@ == "get-item"@,
        r@[4].1.inputs@.len() == 2,
        r@[4].1.outputs@.len() == 1,
        r@[4].1.inputs@[0].name@ == "document_id"@,
        r@[4].1.inputs@[0].type_string@ == "string"@,
        r@[4].1.inputs@[1].name@ == "collection_id"@,
        r@[4].1.inputs@[1].type_string@ == "string"@,
        r@[4].1.outputs@[0].name@ == "document"@,
        r@[4].1.outputs@[0].type_string@ == "string"@,
        r@[5].0@ == "list-items"@,
        r@[5].1.name@ == "list-items"@,
        r@[5].1.inputs@.len() == 1,
        r@[5].1.outputs@.len() == 1,
        r@[5].1.inputs@[0].name@ == "collection_id"@,
        r@[5].1.inputs@[0].type_string@ == "string"@,
        r@[5].1.outputs@[0].name@ == "document_ids"@,
        r@[5].1.outputs@[0].type_string@ == "list<string>"@,
        r@[6].0@ == "create-user"@,
        r@[6].1.name@ == "create-user"@,
        r@[6].1.inputs@.len() == 3,
        r@[6].1.outputs@.len() == 1,
        r@[6].1.inputs@[0].name@ == "username"@,
        r@[6].1.inputs@[0].type_string@ == "string"@,
        r@[6].1.inputs@[1].name@ == "user_id"@,
        r@[6].1.inputs@[1].type_string@ == "string"@,
        r@[6].1.inputs@[2].name@ == "password"@,
        r@[6].1.inputs@[2].type_string@ == "string"@,
        r@[6].1.outputs@[0].name@ == "user_id"@,
        r@[6].1.outputs@[0].type_string@ == "string"@,
        r@[7].0@ == "remove-user"@,
        r@[7].1.name@ == "remove-user"@,
        r@[7].1.inputs@.len() == 1,
        r@[7].1.outputs@.len() == 1,
        r@[7].1.inputs@[0].name@ == "username"@,
        r@[7].1.inputs@[0].type_string@ == "string"@,
        r@[7].1.outputs@[0].name@ == "user_id"@,
        r@[7].1.outputs@[0].type_string@ == "string"@,
        r@[8].0@ == "list-users"@,
        r@[8].1.name@ == "list-users"@,
        r@[8].1.inputs@.len() == 0,
        r@[8].1.outputs@.len() == 1,
        r@[8].1.outputs@[0].name@ == "users"@,
        r@[8].1.outputs@[0].type_string@ == "list<string>"@,
        r@[9].0@ == "authenticate"@,
        r@[9].1.name@ == "authenticate"@,
        r@[9].1.inputs@.len() == 3,
        r@[9].1.outputs@.len() == 1,
        r@[9].1.inputs@[0].name@ == "username"@,
        r@[9].1.inputs@[0].type_string@ == "string"@,
        r@[9].1.inputs@[1].name@ == "password"@,
        r@[9].1.inputs@[1].type_string@ == "string"@,
        r@[9].1.inputs@[2].name@ == "session"@,
        r@[9].1.inputs@[2].type_string@ == "string"@,
        r@[9].1.outputs@[0].name@ == "session"@,
        r@[9].1.outputs@[0].type_string@ == "string"@,
        r@[10].0@ == "validate-session"@,
        r@[10].1.name@ == "validate-session"@,
        r@[10].1.inputs@.len() == 1,
        r@[10].1.outputs@.len() == 1,
        r@[10].1.inputs@[0].name@ == "session"@,
        r@[10].1.inputs@[0].type_string@ == "string"@,
        r@[10].1.outputs@[0].name@ == "user_id"@,
        r@[10].1.outputs@[0].type_string@ == "string"@,
        r@[11].0@ == "update-permissions"@,
        r@[11].1.name@ == "update-permissions"@,
        r@[11].1.inputs@.len() == 2,
        r@[11].1.outputs@.len() == 1,
        r@[11].1.inputs@[0].name@ == "user_id"@,
        r@[11].1.inputs@[0].type_string@ == "string"@,
        r@[11].1.inputs@[1].name@ == "permissions"@,
        r@[11].1.inputs@[1].type_string@ == "list<string>"@,
        r@[11].1.outputs@[0].name@ == "permissions"@,
        r@[11].1.outputs@[0].type_string@ == "list<string>"@,
        r@[12].0@ == "list-permissions"@,
        r@[12].1.name@ == "list-permissions"@,
        r@[12].1.inputs@.len() == 1,
        r@[12].1.outputs@.len() == 1,
        r@[12].1.inputs@[0].name@ == "user_id"@,
        r@[12].1.inputs@[0].type_string@ == "string"@,
        r@[12].1.outputs@[0].name@ == "permissions"@,
        r@[12].1.outputs@[0].type_string@ == "list<string>"@,
        r@[13].0@ == "has-permission"@,
        r@[13].1.name@ == "has-permission"@,
        r@[13].1.inputs@.len() == 2,
        r@[13].1.outputs@.len() == 1,
        r@[13].1.inputs@[0].name@ == "user_id"@,
        r@[13].1.inputs@[0].type_string@ == "string"@,
        r@[13].1.inputs@[1].name@ == "permission"@,
        r@[13].1.inputs@[1].type_string@ == "string"@,
        r@[13].1.outputs@[0].name@ == "user_id"@,
        r@[13].1.outputs@[0].type_string@ == "string"@,
        r@[14].0@ == "get-id"@,
        r@[14].1.name@ == "get-id"@,
        r@[14].1.inputs@.len() == 1,
        r@[14].1.outputs@.len() == 1,
        r@[14].1.inputs@[0].name@ == "username"@,
        r@[14].1.inputs@[0].type_string@ == "string"@,
        r@[14].1.outputs@[0].name@ == "user_id"@,
        r@[14].1.outputs@[0].type_string@ == "string"@,
{
    let mut r: Vec<(String, ComponentSignature)> = Vec::new();
    let mut inputs: Vec<PortSignature> = Vec::new();
    let mut outputs: Vec<PortSignature> = Vec::new();
    inputs.push(PortSignature::new(String::from_str("input"), String::from_str("string")));
    outputs.push(PortSignature::new(String::from_str("output"), String::from_str("string")));
    r.push((
        String::from_str("test-component"),
        ComponentSignature { name: String::from_str("test-component"), inputs, outputs },
    ));
    let mut inputs: Vec<PortSignature> = Vec::new();
    let mut outputs: Vec<PortSignature> = Vec::new();
    inputs.push(PortSignature::new(String::from_str("input"), String::from_str("string")));
    outputs.push(PortSignature::new(String::from_str("output"), String::from_str("string")));
    r.push((
        String::from_str("error"),
        ComponentSignature { name: String::from_str("error"), inputs, outputs },
    ));
    let mut inputs: Vec<PortSignature> = Vec::new();
    let mut outputs: Vec<PortSignature> = Vec::new();
    inputs.push(PortSignature::new(String::from_str("input"), String::from_str("string")));
    outputs.push(PortSignature::new(String::from_str("output"), String::from_str("string")));
    r.push((
        String::from_str("reverse"),
        ComponentSignature { name: String::from_str("reverse"), inputs, outputs },
    ));
    let mut inputs: Vec<PortSignature> = Vec::new();
    let mut outputs: Vec<PortSignature> = Vec::new();
    inputs.push(PortSignature::new(String::from_str("document_id"), String::from_str("string")));
    inputs.push(PortSignature::new(String::from_str("collection_id"), String::from_str("string")));
    inputs.push(PortSignature::new(String::from_str("document"), String::from_str("string")));
    outputs.push(PortSignature::new(String::from_str("document_id"), String::from_str("string")));
    r.push((
        String::from_str("add-item"),
        ComponentSignature { name: String::from_str("add-item"), inputs, outputs },
    ));
    let mut inputs: Vec<PortSignature> = Vec::new();
    let mut outputs: Vec<PortSignature> = Vec::new();
    inputs.push(PortSignature::new(String::from_str("document_id"), String::from_str("string")));
    inputs.push(PortSignature::new(String::from_str("collection_id"), String::from_str("string")));
    outputs.push(PortSignature::new(String::from_str("document"), String::from_str("string")));
    r.push((
        String::from_str("get-item"),
        ComponentSignature { name: String::from_str("get-item"), inputs, outputs },
    ));
    let mut inputs: Vec<PortSignature> = Vec::new();
    let mut outputs: Vec<PortSignature> = Vec::new();
    inputs.push(PortSignature::new(String::from_str("collection_id"), String::from_str("string")));
    outputs.push(PortSignature::new(String::from_str("document_ids"), String::from_str("list<string>")));
    r.push((
        String::from_str("list-items"),
        ComponentSignature { name: String::from_str("list-items"), inputs, outputs },
    ));
    let mut inputs: Vec<PortSignature> = Vec::new();
    let mut outputs: Vec<PortSignature> = Vec::new();
    inputs.push(PortSignature::new(String::from_str("username"), String::from_str("string")));
    inputs.push(PortSignature::new(String::from_str("user_id"), String::from_str("string")));
    inputs.push(PortSignature::new(String::from_str("password"), String::from_str("string")));
    outputs.push(PortSignature::new(String::from_str("user_id"), String::from_str("string")));
    r.push((
        String::from_str("create-user"),
        ComponentSignature { name: String::from_str("create-user"), inputs, outputs },
    ));
    let mut inputs: Vec<PortSignature> = Vec::new();
    let mut outputs: Vec<PortSignature> = Vec::new();
    inputs.push(PortSignature::new(String::from_str("username"), String::from_str("string")));
    outputs.push(PortSignature::new(String::from_str("user_id"), String::from_str("string")));
    r.push((
        String::from_str("remove-user"),
        ComponentSignature { name: String::from_str("remove-user"), inputs, outputs },
    ));
    let mut inputs: Vec<PortSignature> = Vec::new();
    let mut outputs: Vec<PortSignature> = Vec::new();
    outputs.push(PortSignature::new(String::from_str("users"), String::from_str("list<string>")));
    r.push((
        String::from_str("list-users"),
        ComponentSignature { name: String::from_str("list-users"), inputs, outputs },
    ));
    let mut inputs: Vec<PortSignature> = Vec::new();
    let mut outputs: Vec<PortSignature> = Vec::new();
    inputs.push(PortSignature::new(String::from_str("username"), String::from_str("string")));
    inputs.push(PortSignature::new(String::from_str("password"), String::from_str("string")));
    inputs.push(PortSignature::new(String::from_str("session"), String::from_str("string")));
    outputs.push(PortSignature::new(String::from_str("session"), String::from_str("string")));
    r.push((
        String::from_str("authenticate"),
        ComponentSignature { name: String::from_str("authenticate"), inputs, outputs },
    ));
    let mut inputs: Vec<PortSignature> = Vec::new();
    let mut outputs: Vec<PortSignature> = Vec::new();
    inputs.push(PortSignature::new(String::from_str("session"), String::from_str("string")));
    outputs.push(PortSignature::new(String::from_str("user_id"), String::from_str("string")));
    r.push((
        String::from_str("validate-session"),
        ComponentSignature { name: String::from_str("validate-session"), inputs, outputs },
    ));
    let mut inputs: Vec<PortSignature> = Vec::new();
    let mut outputs: Vec<PortSignature> = Vec::new();
    inputs.push(PortSignature::new(String::from_str("user_id"), String::from_str("string")));
    inputs.push(PortSignature::new(String::from_str("permissions"), String::from_str("list<string>")));
    outputs.push(PortSignature::new(String::from_str("permissions"), String::from_str("list<string>")));
    r.push((
        String::from_str("update-permissions"),
        ComponentSignature { name: String::from_str("update-permissions"), inputs, outputs },
    ));
    let mut inputs: Vec<PortSignature> = Vec::new();
    let mut outputs: Vec<PortSignature> = Vec::new();
    inputs.push(PortSignature::new(String::from_str("user_id"), String::from_str("string")));
    outputs.push(PortSignature::new(String::from_str("permissions"), String::from_str("list<string>")));
    r.push((
        String::from_str("list-permissions"),
        ComponentSignature { name: String::from_str("list-permissions"), inputs, outputs },
    ));
    let mut inputs: Vec<PortSignature> = Vec::new();
    let mut outputs: Vec<PortSignature> = Vec::new();
    inputs.push(PortSignature::new(String::from_str("user_id"), String::from_str("string")));
    inputs.push(PortSignature::new(String::from_str("permission"), String::from_str("string")));
    outputs.push(PortSignature::new(String::from_str("user_id"), String::from_str("string")));
    r.push((
        String::from_str("has-permission"),
        ComponentSignature { name: String::from_str("has-permission"), inputs, outputs },
    ));
    let mut inputs: Vec<PortSignature> = Vec::new();
    let mut outputs: Vec<PortSignature> = Vec::new();
    inputs.push(PortSignature::new(String::from_str("username"), String::from_str("string")));
    outputs.push(PortSignature::new(String::from_str("user_id"), String::from_str("string")));
    r.push((
        String::from_str("get-id"),
        ComponentSignature { name: String::from_str("get-id"), inputs, outputs },
    ));
    r
}

/// What this registry exposes through the listing call: each hosted
/// component with its full signature.
pub fn get_list() -> (r: Vec<crate::signature::HostedType>)
    ensures
        r@.len() == 15,
        forall|i: int| 0 <= i < r@.len() ==> (#[trigger] r@[i]) is Component,
{
    let mut sigs = registry_signatures();
    let mut out: Vec<crate::signature::HostedType> = Vec::new();
    while sigs.len() > 0
        invariant
            out@.len() + sigs@.len() == 15,
            forall|j: int| 0 <= j < out@.len() ==> (#[trigger] out@[j]) is Component,
        decreases sigs@.len(),
    {
        let (_, sig) = sigs.remove(0);
        out.push(crate::signature::HostedType::Component(sig));
    }
    out
}

/// The component names the registry resolves.
pub open spec fn known_component(n: Seq<char>) -> bool {
    ||| n == "test-component"@
    ||| n == "error"@
    ||| n == "reverse"@
    ||| n == "add-item"@
    ||| n == "get-item"@
    ||| n == "list-items"@
    ||| n == "create-user"@
    ||| n == "remove-user"@
    ||| n == "list-users"@
    ||| n == "authenticate"@
    ||| n == "validate-session"@
    ||| n == "update-permissions"@
    ||| n == "list-permissions"@
    ||| n == "has-permission"@
    ||| n == "get-id"@
}

/// Reverses the characters of the input; the job of the `reverse` component.
pub fn job(input: &String) -> (r: String)
    ensures
        r@ == input@.reverse(),
{
    let n = input.as_str().unicode_len();
    let mut out = String::new();
    let mut i: usize = n;
    while i > 0
        invariant
            i <= n,
            n == input@.len(),
            out@.len() == n - i,
            forall|j: int| 0 <= j < out@.len() ==> out@[j] == input@[n - 1 - j],
        decreases i,
    {
        i = i - 1;
        let c = input.as_str().get_char(i);
        crate::codec::string_push(&mut out, c);
    }
    proof {
        assert(out@ =~= input@.reverse());
    }
    out
}

/// Prefixes the input with the test marker; the job of the test component.
pub fn test_component_job(input: &String) -> (r: String)
    ensures
        r@ == "TEST: "@ + input@,
{
    String::from_str("TEST: ").concat(input.as_str())
}

/// The text value a drained payload carries on `port`: the first entry under
/// that port name, when it is a data packet holding one complete text
/// encoding.
pub open spec fn spec_text_arg(s: Seq<(Seq<char>, PacketView)>, port: Seq<char>) -> Option<
    Seq<char>,
>
    decreases s.len(),
{
    if s.len() == 0 {
        None
    } else if s[0].0 == port {
        match s[0].1 {
            PacketView::Data(b) => match crate::codec::dec_value(b) {
                Some((v, k)) => if v matches ValueView::Text(t) && k == b.len() {
                    Some(v->Text_0)
                } else {
                    None
                },
                None => None,
            },
            _ => None,
        }
    } else {
        spec_text_arg(s.drop_first(), port)
    }
}

/// Decodes the text payload value on `port`.
#[verifier::loop_isolation(false)]
fn text_arg(payload: &Vec<(String, Packet)>, port: &str) -> (r: Option<String>)
    ensures
        match r {
            Some(s) => spec_text_arg(payload.deep_view(), port@) == Some(s@),
            None => spec_text_arg(payload.deep_view(), port@) is None,
        },
{
    let key = port.to_owned();
    let n = payload.len();
    let ghost full = payload.deep_view();
    proof {
        assert(full.skip(0) =~= full);
    }
    let mut i: usize = 0;
    while i < n
        invariant
            i <= n,
            spec_text_arg(full, port@) == spec_text_arg(full.skip(i as int), port@),
        decreases n - i,
    {
        proof {
            assert(full.skip(i as int)[0] == (payload@[i as int].0@, payload@[i as int].1@));
            assert(full.skip(i as int).drop_first() =~= full.skip(i + 1));
        }
        if payload[i].0 == key {
            match &payload[i].1 {
                Packet::Data(bytes) => {
                    match decode(bytes, &TypeTag::Text) {
                        Ok(Value::Text(s)) => {
                            return Some(s);
                        },
                        Ok(other) => {
                            // A value the text tag admits is a text value, so
                            // this arm cannot be reached.
                            proof {
                                assert(other@ is Text);
                                assert(!(other@ is Text));
                            }
                            return None;
                        },
                        Err(e) => {
                            match e {
                                CodecError::TypeError => {
                                    return None;
                                },
                                CodecError::Malformed => {
                                    return None;
                                },
                            }
                        },
                    }
                },
                _ => {
                    return None;
                },
            }
        }
        i = i + 1;
    }
    proof {
        assert(full.skip(n as int) =~= Seq::<(Seq<char>, PacketView)>::empty());
    }
    None
}

/// Encodes a text value as packet bytes.
pub fn text_packet(s: &String) -> (r: Packet)
    ensures
        r@ == PacketView::Data(crate::codec::enc_value(ValueView::Text(s@))),
{
    let mut out: Vec<u8> = Vec::new();
    encode_value_into(&Value::Text(s.clone()), &mut out);
    Packet::Data(out)
}

/// The model of a list of texts as a packet value.
pub open spec fn texts_value(ts: Seq<Seq<char>>) -> ValueView {
    ValueView::ValueList(ts.map_values(|t: Seq<char>| ValueView::Text(t)))
}

/// Encodes a list of texts as packet bytes.
#[verifier::loop_isolation(false)]
pub fn text_list_packet(items: Vec<String>) -> (r: Packet)
    ensures
        r@ == PacketView::Data(crate::codec::enc_value(texts_value(items.deep_view()))),
{
    let mut vals: Vec<Value> = Vec::new();
    let n = items.len();
    let mut i: usize = 0;
    while i < n
        invariant
            i <= n,
            crate::codec::value_list_view(vals@) =~= items.deep_view().subrange(
                0,
                i as int,
            ).map_values(|t: Seq<char>| ValueView::Text(t)),
        decreases n - i,
    {
        let ghost pre = vals@;
        vals.push(Value::Text(items[i].clone()));
        proof {
            crate::codec::lemma_value_list_view_props(vals@);
            crate::codec::lemma_value_list_view_props(pre);
            assert(vals@.drop_last() =~= pre);
            assert(crate::codec::value_list_view(vals@) =~= crate::codec::value_list_view(
                pre,
            ).push(ValueView::Text(items@[i as int]@)));
            assert(items.deep_view().subrange(0, i + 1).map_values(
                |t: Seq<char>| ValueView::Text(t),
            ) =~= items.deep_view().subrange(0, i as int).map_values(
                |t: Seq<char>| ValueView::Text(t),
            ).push(ValueView::Text(items.deep_view()[i as int])));
        }
        i = i + 1;
    }
    proof {
        assert(items.deep_view().subrange(0, n as int) =~= items.deep_view());
    }
    let mut out: Vec<u8> = Vec::new();
    encode_value_into(&Value::ValueList(vals), &mut out);
    Packet::Data(out)
}

fn one_output(port: &str, packet: Packet) -> (r: Vec<PortPacket>)
    ensures
        r@.len() == 2,
        r@[0]@ == (port@, packet@),
        r@[1]@ == (port@, PacketView::Done),
{
    let mut out: Vec<PortPacket> = Vec::new();
    out.push(PortPacket { port: port.to_owned(), packet });
    out.push(PortPacket { port: port.to_owned(), packet: Packet::Done });
    out
}

/// The stream a one-shot component answers with: its single result on its
/// output port, then `Done`.
pub open spec fn one_shot(port: Seq<char>, value: Seq<char>) -> Seq<(Seq<char>, PacketView)> {
    seq![
        (port, PacketView::Data(crate::codec::enc_value(ValueView::Text(value)))),
        (port, PacketView::Done),
    ]
}

/// The stream of a component answering with one list of texts, then `Done`.
pub open spec fn one_shot_list(port: Seq<char>, values: Seq<Seq<char>>) -> Seq<
    (Seq<char>, PacketView),
> {
    seq![
        (port, PacketView::Data(crate::codec::enc_value(texts_value(values)))),
        (port, PacketView::Done),
    ]
}

/// Every decoded item is a text value.
pub open spec fn all_texts(items: Seq<ValueView>) -> bool {
    forall|i: int| 0 <= i < items.len() ==> (#[trigger] items[i]) is Text
}

/// The characters of each text item.
pub open spec fn texts_of(items: Seq<ValueView>) -> Seq<Seq<char>> {
    items.map_values(|v: ValueView| v->Text_0)
}

/// The list of texts a drained payload carries on `port`: the first entry
/// under that port name, when it is a data packet holding one complete list
/// encoding whose items are all texts.
pub open spec fn spec_text_list_arg(s: Seq<(Seq<char>, PacketView)>, port: Seq<char>) -> Option<
    Seq<Seq<char>>,
>
    decreases s.len(),
{
    if s.len() == 0 {
        None
    } else if s[0].0 == port {
        match s[0].1 {
            PacketView::Data(b) => match crate::codec::dec_value(b) {
                Some((v, k)) => if v matches ValueView::ValueList(items) && k == b.len()
                    && all_texts(v->ValueList_0) {
                    Some(texts_of(v->ValueList_0))
                } else {
                    None
                },
                None => None,
            },
            _ => None,
        }
    } else {
        spec_text_list_arg(s.drop_first(), port)
    }
}

/// The usernames of the registered users, in registration order.
pub open spec fn user_names(s: Seq<(String, crate::providers::UserRecord)>) -> Seq<Seq<char>> {
    s.map_values(|e: (String, crate::providers::UserRecord)| e.0@)
}

/// Decides `known_component`.
fn is_known(component: &String) -> (r: bool)
    ensures
        r == known_component(component@),
{
    *component == String::from_str("test-component") || *component == String::from_str("error")
        || *component == String::from_str("reverse") || *component == String::from_str("add-item")
        || *component == String::from_str("get-item") || *component == String::from_str(
        "list-items",
    ) || *component == String::from_str("create-user") || *component == String::from_str(
        "remove-user",
    ) || *component == String::from_str("list-users") || *component == String::from_str(
        "authenticate",
    ) || *component == String::from_str("validate-session") || *component == String::from_str(
        "update-permissions",
    ) || *component == String::from_str("list-permissions") || *component == String::from_str(
        "has-permission",
    ) || *component == String::from_str("get-id")
}

/// Resolves the component name, counts the call, and runs the component's
/// job on the drained payload. Unknown names fail with `ComponentNotFound`;
/// each hosted component's stream and state effect is pinned below, reusing
/// the provider methods' own contracts.
pub fn dispatch(reg: &mut Registry, component: &String, payload: &Vec<(String, Packet)>) -> (r:
    Result<Vec<PortPacket>, ProviderError>)
    requires
        old(reg).wf(),
    ensures
        final(reg).wf(),
        r matches Ok(outs) ==> forall|j: int|
            0 <= j < outs@.len() ==> (#[trigger] outs@[j]).packet@ is Data || outs@[j].packet@
                is Done,
        known_component(component@) ==> calls_map(final(reg).calls@) == bumped(
            calls_map(old(reg).calls@),
            component@,
        ),
        !known_component(component@) ==> {
            &&& r matches Err(ProviderError::ComponentNotFound(c)) && c@ == component@
            &&& final(reg).collection == old(reg).collection
            &&& final(reg).auth == old(reg).auth
            &&& final(reg).calls == old(reg).calls
        },
        component@ == "reverse"@ ==> {
            &&& final(reg).collection == old(reg).collection
            &&& final(reg).auth == old(reg).auth
            &&& match spec_text_arg(payload.deep_view(), "input"@) {
                Some(t) => r matches Ok(outs) && outs.deep_view() == one_shot(
                    "output"@,
                    t.reverse(),
                ),
                None => r matches Err(ProviderError::TypeMismatch(p)) && p@ == "input"@,
            }
        },
        component@ == "test-component"@ ==> {
            &&& final(reg).collection == old(reg).collection
            &&& final(reg).auth == old(reg).auth
            &&& match spec_text_arg(payload.deep_view(), "input"@) {
                Some(t) => r matches Ok(outs) && outs.deep_view() == one_shot(
                    "output"@,
                    "TEST: "@ + t,
                ),
                None => r matches Err(ProviderError::TypeMismatch(p)) && p@ == "input"@,
            }
        },
        component@ == "error"@ ==> {
            &&& final(reg).collection == old(reg).collection
            &&& final(reg).auth == old(reg).auth
            &&& r matches Err(ProviderError::ProviderFailure(m)) && m@ == "This always errors"@
        },
        component@ == "add-item"@ ==> {
            let d = spec_text_arg(payload.deep_view(), "document_id"@);
            let c = spec_text_arg(payload.deep_view(), "collection_id"@);
            let doc = spec_text_arg(payload.deep_view(), "document"@);
            let old_docs = crate::providers::string_map(old(reg).collection.documents@);
            let old_lists = crate::providers::string_list_map(old(reg).collection.collections@);
            &&& final(reg).auth == old(reg).auth
            &&& (d is Some && c is Some && doc is Some) ==> {
                &&& r matches Ok(outs) && outs.deep_view() == one_shot("document_id"@, d->0)
                &&& crate::providers::string_map(final(reg).collection.documents@)
                    == old_docs.insert(d->0, doc->0)
                &&& crate::providers::string_list_map(final(reg).collection.collections@)
                    == old_lists.insert(
                    c->0,
                    (if old_lists.contains_key(c->0) {
                        old_lists[c->0]
                    } else {
                        Seq::empty()
                    }).push(d->0),
                )
            }
            &&& !(d is Some && c is Some && doc is Some) ==> {
                &&& r matches Err(ProviderError::TypeMismatch(p)) && p@ == "document_id"@
                &&& final(reg).collection == old(reg).collection
            }
        },
        component@ == "get-item"@ ==> {
            let d = spec_text_arg(payload.deep_view(), "document_id"@);
            let docs = crate::providers::string_map(old(reg).collection.documents@);
            &&& final(reg).collection == old(reg).collection
            &&& final(reg).auth == old(reg).auth
            &&& d is None ==> {
                &&& r matches Err(ProviderError::TypeMismatch(p)) && p@ == "document_id"@
            }
            &&& (d is Some && docs.contains_key(d->0)) ==> {
                &&& r matches Ok(outs) && outs.deep_view() == one_shot("document"@, docs[d->0])
            }
            &&& (d is Some && !docs.contains_key(d->0)) ==> {
                &&& r matches Err(ProviderError::ProviderFailure(m)) && m@ == "no such document"@
            }
        },
        component@ == "list-items"@ ==> {
            let c = spec_text_arg(payload.deep_view(), "collection_id"@);
            let lists = crate::providers::string_list_map(old(reg).collection.collections@);
            &&& final(reg).collection == old(reg).collection
            &&& final(reg).auth == old(reg).auth
            &&& c is None ==> {
                &&& r matches Err(ProviderError::TypeMismatch(p)) && p@ == "collection_id"@
            }
            &&& c is Some ==> {
                &&& r matches Ok(outs) && outs.deep_view() == one_shot_list(
                    "document_ids"@,
                    if lists.contains_key(c->0) {
                        lists[c->0]
                    } else {
                        Seq::empty()
                    },
                )
            }
        },
        component@ == "create-user"@ ==> {
            let u = spec_text_arg(payload.deep_view(), "username"@);
            let id = spec_text_arg(payload.deep_view(), "user_id"@);
            let p = spec_text_arg(payload.deep_view(), "password"@);
            &&& final(reg).collection == old(reg).collection
            &&& final(reg).auth.sessions == old(reg).auth.sessions
            &&& final(reg).auth.permissions == old(reg).auth.permissions
            &&& (u is Some && id is Some && p is Some) ==> {
                &&& r matches Ok(outs) && outs.deep_view() == one_shot("user_id"@, id->0)
                &&& crate::providers::users_map(final(reg).auth.users@)
                    == crate::providers::users_map(old(reg).auth.users@).insert(u->0, id->0)
                &&& crate::providers::passwords_map(final(reg).auth.users@)
                    == crate::providers::passwords_map(old(reg).auth.users@).insert(u->0, p->0)
            }
            &&& !(u is Some && id is Some && p is Some) ==> {
                &&& r matches Err(ProviderError::TypeMismatch(q)) && q@ == "username"@
                &&& final(reg).auth == old(reg).auth
            }
        },
        component@ == "remove-user"@ ==> {
            let u = spec_text_arg(payload.deep_view(), "username"@);
            let users = crate::providers::users_map(old(reg).auth.users@);
            &&& final(reg).collection == old(reg).collection
            &&& final(reg).auth.sessions == old(reg).auth.sessions
            &&& final(reg).auth.permissions == old(reg).auth.permissions
            &&& u is None ==> {
                &&& r matches Err(ProviderError::TypeMismatch(p)) && p@ == "username"@
                &&& final(reg).auth == old(reg).auth
            }
            &&& u is Some ==> crate::providers::users_map(final(reg).auth.users@) == users.remove(
                u->0,
            )
            &&& (u is Some && users.contains_key(u->0)) ==> {
                &&& r matches Ok(outs) && outs.deep_view() == one_shot("user_id"@, users[u->0])
            }
            &&& (u is Some && !users.contains_key(u->0)) ==> {
                &&& r matches Err(ProviderError::ProviderFailure(m)) && m@ == "no such user"@
            }
        },
        component@ == "list-users"@ ==> {
            &&& final(reg).collection == old(reg).collection
            &&& final(reg).auth == old(reg).auth
            &&& r matches Ok(outs) && outs.deep_view() == one_shot_list(
                "users"@,
                user_names(old(reg).auth.users@),
            )
        },
        component@ == "authenticate"@ ==> {
            let u = spec_text_arg(payload.deep_view(), "username"@);
            let p = spec_text_arg(payload.deep_view(), "password"@);
            let s = spec_text_arg(payload.deep_view(), "session"@);
            let passwords = crate::providers::passwords_map(old(reg).auth.users@);
            let ids = crate::providers::users_map(old(reg).auth.users@);
            &&& final(reg).collection == old(reg).collection
            &&& final(reg).auth.users == old(reg).auth.users
            &&& final(reg).auth.permissions == old(reg).auth.permissions
            &&& !(u is Some && p is Some && s is Some) ==> {
                &&& r matches Err(ProviderError::TypeMismatch(q)) && q@ == "username"@
                &&& final(reg).auth == old(reg).auth
            }
            &&& (u is Some && p is Some && s is Some && passwords.contains_key(u->0)
                && passwords[u->0] == p->0) ==> {
                &&& r matches Ok(outs) && outs.deep_view() == one_shot("session"@, s->0)
                &&& crate::providers::string_map(final(reg).auth.sessions@)
                    == crate::providers::string_map(old(reg).auth.sessions@).insert(
                    s->0,
                    ids[u->0],
                )
            }
            &&& (u is Some && p is Some && s is Some && !(passwords.contains_key(u->0)
                && passwords[u->0] == p->0)) ==> {
                &&& r matches Err(ProviderError::ProviderFailure(m)) && m@
                    == "authentication failed"@
                &&& final(reg).auth == old(reg).auth
            }
        },
        component@ == "validate-session"@ ==> {
            let s = spec_text_arg(payload.deep_view(), "session"@);
            let sessions = crate::providers::string_map(old(reg).auth.sessions@);
            &&& final(reg).collection == old(reg).collection
            &&& final(reg).auth == old(reg).auth
            &&& s is None ==> {
                &&& r matches Err(ProviderError::TypeMismatch(p)) && p@ == "session"@
            }
            &&& (s is Some && sessions.contains_key(s->0)) ==> {
                &&& r matches Ok(outs) && outs.deep_view() == one_shot(
                    "user_id"@,
                    sessions[s->0],
                )
            }
            &&& (s is Some && !sessions.contains_key(s->0)) ==> {
                &&& r matches Err(ProviderError::ProviderFailure(m)) && m@ == "no such session"@
            }
        },
        component@ == "update-permissions"@ ==> {
            let id = spec_text_arg(payload.deep_view(), "user_id"@);
            let ps = spec_text_list_arg(payload.deep_view(), "permissions"@);
            &&& final(reg).collection == old(reg).collection
            &&& final(reg).auth.users == old(reg).auth.users
            &&& final(reg).auth.sessions == old(reg).auth.sessions
            &&& (id is Some && ps is Some) ==> {
                &&& r matches Ok(outs) && outs.deep_view() == one_shot_list("permissions"@, ps->0)
                &&& crate::providers::string_list_map(final(reg).auth.permissions@)
                    == crate::providers::string_list_map(old(reg).auth.permissions@).insert(
                    id->0,
                    ps->0,
                )
            }
            &&& !(id is Some && ps is Some) ==> {
                &&& r matches Err(ProviderError::TypeMismatch(q)) && q@ == "user_id"@
                &&& final(reg).auth == old(reg).auth
            }
        },
        component@ == "list-permissions"@ ==> {
            let id = spec_text_arg(payload.deep_view(), "user_id"@);
            let perms = crate::providers::string_list_map(old(reg).auth.permissions@);
            &&& final(reg).collection == old(reg).collection
            &&& final(reg).auth == old(reg).auth
            &&& id is None ==> {
                &&& r matches Err(ProviderError::TypeMismatch(p)) && p@ == "user_id"@
            }
            &&& id is Some ==> {
                &&& r matches Ok(outs) && outs.deep_view() == one_shot_list(
                    "permissions"@,
                    if perms.contains_key(id->0) {
                        perms[id->0]
                    } else {
                        Seq::empty()
                    },
                )
            }
        },
        component@ == "has-permission"@ ==> {
            let id = spec_text_arg(payload.deep_view(), "user_id"@);
            let p = spec_text_arg(payload.deep_view(), "permission"@);
            let perms = crate::providers::string_list_map(old(reg).auth.permissions@);
            &&& final(reg).collection == old(reg).collection
            &&& final(reg).auth == old(reg).auth
            &&& !(id is Some && p is Some) ==> {
                &&& r matches Err(ProviderError::TypeMismatch(q)) && q@ == "user_id"@
            }
            &&& (id is Some && p is Some && perms.contains_key(id->0) && perms[id->0].contains(
                p->0,
            )) ==> {
                &&& r matches Ok(outs) && outs.deep_view() == one_shot("user_id"@, id->0)
            }
            &&& (id is Some && p is Some && !(perms.contains_key(id->0) && perms[id->0].contains(
                p->0,
            ))) ==> {
                &&& r matches Err(ProviderError::ProviderFailure(m)) && m@
                    == "permission not held"@
            }
        },
        component@ == "get-id"@ ==> {
            let u = spec_text_arg(payload.deep_view(), "username"@);
            let ids = crate::providers::users_map(old(reg).auth.users@);
            &&& final(reg).collection == old(reg).collection
            &&& final(reg).auth == old(reg).auth
            &&& u is None ==> {
                &&& r matches Err(ProviderError::TypeMismatch(p)) && p@ == "username"@
            }
            &&& (u is Some && ids.contains_key(u->0)) ==> {
                &&& r matches Ok(outs) && outs.deep_view() == one_shot("user_id"@, ids[u->0])
            }
            &&& (u is Some && !ids.contains_key(u->0)) ==> {
                &&& r matches Err(ProviderError::ProviderFailure(m)) && m@ == "no such user"@
            }
        },
{
    proof {
        reveal_strlit("test-component");
        reveal_strlit("error");
        reveal_strlit("reverse");
        reveal_strlit("add-item");
        reveal_strlit("get-item");
        reveal_strlit("list-items");
        reveal_strlit("create-user");
        reveal_strlit("remove-user");
        reveal_strlit("list-users");
        reveal_strlit("authenticate");
        reveal_strlit("validate-session");
        reveal_strlit("update-permissions");
        reveal_strlit("list-permissions");
        reveal_strlit("has-permission");
        reveal_strlit("get-id");
        // Revealed lengths make the component names distinct, so the
        // contract's cases are mutually exclusive across the branches.
        assert("test-component"@.len() == 14);
        assert("error"@.len() == 5);
        assert("reverse"@.len() == 7);
        assert("add-item"@.len() == 8);
        assert("get-item"@.len() == 8);
        assert("list-items"@.len() == 10);
        assert("create-user"@.len() == 11);
        assert("remove-user"@.len() == 11);
        assert("list-users"@.len() == 10);
        assert("authenticate"@.len() == 12);
        assert("validate-session"@.len() == 16);
        assert("update-permissions"@.len() == 18);
        assert("list-permissions"@.len() == 16);
        assert("has-permission"@.len() == 14);
        assert("get-id"@.len() == 6);
        assert("test-component"@[0] != "has-permission"@[0]);
        assert("add-item"@[0] != "get-item"@[0]);
        assert("create-user"@[0] != "remove-user"@[0]);
        assert("list-items"@[5] != "list-users"@[5]);
        assert("validate-session"@[0] != "list-permissions"@[0]);
    }
    if is_known(component) {
        reg.record_call(component);
    }
    if *component == String::from_str("test-component") {
        match text_arg(payload, "input") {
            Some(input) => {
                let outs = one_output("output", text_packet(&test_component_job(&input)));
                proof {
                    assert(outs.deep_view() =~= one_shot("output"@, "TEST: "@ + input@));
                }
                Ok(outs)
            },
            None => Err(ProviderError::TypeMismatch(String::from_str("input"))),
        }
    } else if *component == String::from_str("error") {
        Err(ProviderError::ProviderFailure(String::from_str("This always errors")))
    } else if *component == String::from_str("reverse") {
        match text_arg(payload, "input") {
            Some(input) => {
                let outs = one_output("output", text_packet(&job(&input)));
                proof {
                    assert(outs.deep_view() =~= one_shot("output"@, input@.reverse()));
                }
                Ok(outs)
            },
            None => Err(ProviderError::TypeMismatch(String::from_str("input"))),
        }
    } else if *component == String::from_str("add-item") {
        let document_id = text_arg(payload, "document_id");
        let collection_id = text_arg(payload, "collection_id");
        let document = text_arg(payload, "document");
        match (document_id, collection_id, document) {
            (Some(d), Some(c), Some(doc)) => {
                let id = reg.collection.add_item(&d, &c, &doc);
                let outs = one_output("document_id", text_packet(&id));
                proof {
                    assert(outs.deep_view() =~= one_shot("document_id"@, d@));
                }
                Ok(outs)
            },
            _ => Err(ProviderError::TypeMismatch(String::from_str("document_id"))),
        }
    } else if *component == String::from_str("get-item") {
        match text_arg(payload, "document_id") {
            Some(d) => match reg.collection.get_item(&d) {
                Some(doc) => {
                    let outs = one_output("document", text_packet(&doc));
                    proof {
                        assert(outs.deep_view() =~= one_shot(
                            "document"@,
                            crate::providers::string_map(reg.collection.documents@)[d@],
                        ));
                    }
                    Ok(outs)
                },
                None => Err(ProviderError::ProviderFailure(String::from_str("no such document"))),
            },
            None => Err(ProviderError::TypeMismatch(String::from_str("document_id"))),
        }
    } else if *component == String::from_str("list-items") {
        match text_arg(payload, "collection_id") {
            Some(c) => {
                let ids = reg.collection.list_items(&c);
                let ghost ids_view = ids.deep_view();
                let outs = one_output("document_ids", text_list_packet(ids));
                proof {
                    assert(outs.deep_view() =~= one_shot_list("document_ids"@, ids_view));
                }
                Ok(outs)
            },
            None => Err(ProviderError::TypeMismatch(String::from_str("collection_id"))),
        }
    } else if *component == String::from_str("create-user") {
        let username = text_arg(payload, "username");
        let user_id = text_arg(payload, "user_id");
        let password = text_arg(payload, "password");
        match (username, user_id, password) {
            (Some(u), Some(id), Some(p)) => {
                let created = reg.auth.create_user(&u, &id, &p);
                let outs = one_output("user_id", text_packet(&created));
                proof {
                    assert(outs.deep_view() =~= one_shot("user_id"@, id@));
                }
                Ok(outs)
            },
            _ => Err(ProviderError::TypeMismatch(String::from_str("username"))),
        }
    } else if *component == String::from_str("remove-user") {
        match text_arg(payload, "username") {
            Some(u) => match reg.auth.remove_user(&u) {
                Some(id) => {
                    let outs = one_output("user_id", text_packet(&id));
                    proof {
                        assert(outs.deep_view() =~= one_shot(
                            "user_id"@,
                            crate::providers::users_map(old(reg).auth.users@)[u@],
                        ));
                    }
                    Ok(outs)
                },
                None => Err(ProviderError::ProviderFailure(String::from_str("no such user"))),
            },
            None => Err(ProviderError::TypeMismatch(String::from_str("username"))),
        }
    } else if *component == String::from_str("list-users") {
        let mut names: Vec<String> = Vec::new();
        let n = reg.auth.users.len();
        let mut i: usize = 0;
        while i < n
            invariant
                n == reg.auth.users@.len(),
                i <= n,
                names.deep_view() =~= user_names(reg.auth.users@.subrange(0, i as int)),
            decreases n - i,
        {
            let ghost pre = names.deep_view();
            names.push(reg.auth.users[i].0.clone());
            proof {
                assert(names.deep_view() =~= pre.push(reg.auth.users@[i as int].0@));
                assert(user_names(reg.auth.users@.subrange(0, i + 1)) =~= user_names(
                    reg.auth.users@.subrange(0, i as int),
                ).push(reg.auth.users@[i as int].0@));
            }
            i = i + 1;
        }
        proof {
            assert(reg.auth.users@.subrange(0, n as int) =~= reg.auth.users@);
        }
        let ghost names_view = names.deep_view();
        let outs = one_output("users", text_list_packet(names));
        proof {
            assert(outs.deep_view() =~= one_shot_list("users"@, user_names(reg.auth.users@)));
        }
        Ok(outs)
    } else if *component == String::from_str("authenticate") {
        let username = text_arg(payload, "username");
        let password = text_arg(payload, "password");
        let session = text_arg(payload, "session");
        match (username, password, session) {
            (Some(u), Some(p), Some(s)) => {
                match reg.auth.authenticate(&u, &p, &s) {
                    Some(sess) => {
                        let outs = one_output("session", text_packet(&sess));
                        proof {
                            assert(outs.deep_view() =~= one_shot("session"@, s@));
                        }
                        Ok(outs)
                    },
                    None => Err(ProviderError::ProviderFailure(String::from_str(
                        "authentication failed",
                    ))),
                }
            },
            _ => Err(ProviderError::TypeMismatch(String::from_str("username"))),
        }
    } else if *component == String::from_str("validate-session") {
        match text_arg(payload, "session") {
            Some(s) => match reg.auth.validate_session(&s) {
                Some(id) => {
                    let outs = one_output("user_id", text_packet(&id));
                    proof {
                        assert(outs.deep_view() =~= one_shot(
                            "user_id"@,
                            crate::providers::string_map(reg.auth.sessions@)[s@],
                        ));
                    }
                    Ok(outs)
                },
                None => Err(ProviderError::ProviderFailure(String::from_str("no such session"))),
            },
            None => Err(ProviderError::TypeMismatch(String::from_str("session"))),
        }
    } else if *component == String::from_str("update-permissions") {
        let user_id = text_arg(payload, "user_id");
        let perms = text_list_arg(payload, "permissions");
        match (user_id, perms) {
            (Some(id), Some(ps)) => {
                let ghost ps_view = ps.deep_view();
                let out_list = reg.auth.update_permissions(&id, ps);
                let ghost out_view = out_list.deep_view();
                let outs = one_output("permissions", text_list_packet(out_list));
                proof {
                    assert(outs.deep_view() =~= one_shot_list("permissions"@, ps_view));
                }
                Ok(outs)
            },
            _ => Err(ProviderError::TypeMismatch(String::from_str("user_id"))),
        }
    } else if *component == String::from_str("list-permissions") {
        match text_arg(payload, "user_id") {
            Some(id) => {
                let ps = reg.auth.list_permissions(&id);
                let ghost ps_view = ps.deep_view();
                let outs = one_output("permissions", text_list_packet(ps));
                proof {
                    assert(outs.deep_view() =~= one_shot_list("permissions"@, ps_view));
                }
                Ok(outs)
            },
            None => Err(ProviderError::TypeMismatch(String::from_str("user_id"))),
        }
    } else if *component == String::from_str("has-permission") {
        let user_id = text_arg(payload, "user_id");
        let permission = text_arg(payload, "permission");
        match (user_id, permission) {
            (Some(id), Some(p)) => {
                match reg.auth.has_permission(&id, &p) {
                    Some(found) => {
                        let outs = one_output("user_id", text_packet(&found));
                        proof {
                            assert(outs.deep_view() =~= one_shot("user_id"@, id@));
                        }
                        Ok(outs)
                    },
                    None => Err(ProviderError::ProviderFailure(String::from_str(
                        "permission not held",
                    ))),
                }
            },
            _ => Err(ProviderError::TypeMismatch(String::from_str("user_id"))),
        }
    } else if *component == String::from_str("get-id") {
        match text_arg(payload, "username") {
            Some(u) => match reg.auth.get_id(&u) {
                Some(id) => {
                    let outs = one_output("user_id", text_packet(&id));
                    proof {
                        assert(outs.deep_view() =~= one_shot(
                            "user_id"@,
                            crate::providers::users_map(reg.auth.users@)[u@],
                        ));
                    }
                    Ok(outs)
                },
                None => Err(ProviderError::ProviderFailure(String::from_str("no such user"))),
            },
            None => Err(ProviderError::TypeMismatch(String::from_str("username"))),
        }
    } else {
        Err(ProviderError::ComponentNotFound(component.clone()))
    }
}

/// Whether the external output carries `Done` on the named port.
pub open spec fn port_done(out: Seq<PortPacket>, port: Seq<char>) -> bool {
    exists|i: int| 0 <= i < out.len() && (#[trigger] out[i])@ == (port, PacketView::Done)
}

/// Whether every declared output port has received `Done`.
pub open spec fn all_outputs_done(out: Seq<PortPacket>, ports: Seq<PortSignature>) -> bool {
    forall|p: int| 0 <= p < ports.len() ==> port_done(out, (#[trigger] ports[p]).name@)
}

/// Decides `port_done`.
fn check_port_done(out: &Vec<PortPacket>, port: &String) -> (r: bool)
    ensures
        r == port_done(out@, port@),
{
    let n = out.len();
    let mut i: usize = 0;
    while i < n
        invariant
            n == out@.len(),
            i <= n,
            forall|j: int| 0 <= j < i ==> (#[trigger] out@[j])@ != (port@, PacketView::Done),
        decreases n - i,
    {
        let hit = match &out[i].packet {
            Packet::Done => out[i].port == *port,
            _ => false,
        };
        if hit {
            proof {
                assert(out@[i as int]@ == (port@, PacketView::Done));
            }
            return true;
        }
        proof {
            assert(out@[i as int]@ != (port@, PacketView::Done));
        }
        i = i + 1;
    }
    false
}

/// Decides `all_outputs_done`.
fn check_all_done(out: &Vec<PortPacket>, ports: &Vec<PortSignature>) -> (r: bool)
    ensures
        r == all_outputs_done(out@, ports@),
{
    let n = ports.len();
    let mut i: usize = 0;
    while i < n
        invariant
            n == ports@.len(),
            i <= n,
            forall|p: int| 0 <= p < i ==> port_done(out@, (#[trigger] ports@[p]).name@),
        decreases n - i,
    {
        if !check_port_done(out, &ports[i].name) {
            return false;
        }
        i = i + 1;
    }
    true
}

/// The result of driving one invocation to its end.
pub struct InvocationOutcome {
    /// The external output channel, in delivery order.
    pub output: Vec<PortPacket>,
    /// Whether every declared output port received `Done`.
    pub completed: bool,
    /// Whether the stream was terminated by an error (a latched hard error,
    /// a bracket mismatch, or starvation standing in for a deadline).
    pub error: bool,
    /// Whether the terminating error was the deadline: the invocation
    /// starved without latching any other error.
    pub timed_out: bool,
}

/// Every payload entry that feeds a direct edge from `SCHEMATIC_INPUT` to
/// `SCHEMATIC_OUTPUT` appears on the output channel, on the edge's consumer
/// port, carrying exactly the payload bytes.
pub open spec fn payload_passthrough(
    out: Seq<PortPacket>,
    edges: Seq<Edge>,
    payload: Seq<(String, Vec<u8>)>,
    upto: int,
) -> bool {
    forall|pi: int, k: int|
        0 <= pi < upto && 0 <= k < edges.len() && (#[trigger] edges[k]).from_node
            == SCHEMATIC_INPUT && edges[k].from_port@ == (#[trigger] payload[pi]).0@
            && edges[k].to_node == SCHEMATIC_OUTPUT ==> crate::router::output_carries(
            out,
            edges[k].to_port@,
            PacketView::Data(payload[pi].1@),
        )
}

/// What the output channel may hold before the stream is terminated: data
/// and end-of-stream markers only.
pub open spec fn stream_packets(out: Seq<PortPacket>) -> bool {
    forall|m: int|
        0 <= m < out.len() ==> {
            let p = (#[trigger] out[m]).packet@;
            p is Data || p is Done
        }
}

proof fn lemma_carries_preserved(
    pre_out: Seq<PortPacket>,
    new_out: Seq<PortPacket>,
    port: Seq<char>,
    p: PacketView,
)
    requires
        pre_out.len() <= new_out.len(),
        forall|j: int| 0 <= j < pre_out.len() ==> new_out[j] == pre_out[j],
        crate::router::output_carries(pre_out, port, p),
    ensures
        crate::router::output_carries(new_out, port, p),
{
    let w = choose|w: int| 0 <= w < pre_out.len() && (#[trigger] pre_out[w])@ == (port, p);
    assert(new_out[w]@ == (port, p));
}

/// Every non-output edge target of the model has an input buffer.
pub open spec fn buffers_cover(bufs: Seq<PortBuffer>, edges: Seq<Edge>) -> bool {
    forall|k: int|
        0 <= k < edges.len() && (#[trigger] edges[k]).to_node != SCHEMATIC_OUTPUT
            ==> spec_has_buf(bufs, edges[k].to_node as int, edges[k].to_port@)
}

/// Looks up a declared default for `(node, port)`.
fn find_default(defaults: &Vec<(usize, String, Vec<u8>)>, node: usize, port: &String) -> (r:
    Option<Vec<u8>>)
{
    let n = defaults.len();
    let mut i: usize = 0;
    while i < n
        invariant
            n == defaults@.len(),
            i <= n,
        decreases n - i,
    {
        if defaults[i].0 == node && defaults[i].1 == *port {
            return Some(defaults[i].2.clone());
        }
        i = i + 1;
    }
    None
}

/// Executes one invocation of the schematic against the registry: builds the
/// invocation context with every edge's buffer and declared defaults, injects
/// the payload at `SCHEMATIC_INPUT`, fires ready nodes until no more
/// progress is possible, and terminates the stream. The outcome's `completed`
/// says exactly whether every declared output port received `Done`; an
/// incomplete or latched invocation ends in a single terminal `Error`.
#[verifier::loop_isolation(false)]
pub fn execute_schematic(
    model: &SchematicModel,
    reg: &mut Registry,
    payload: &Vec<(String, Vec<u8>)>,
    fuel: usize,
) -> (r: InvocationOutcome)
    requires
        model.wf(),
        old(reg).wf(),
    ensures
        final(reg).wf(),
        r.completed == all_outputs_done(r.output@, model.outputs@),
        !r.completed ==> r.error,
        r.error ==> r.output@.len() > 0 && r.output@.last().packet@ is Error,
        !r.error ==> stream_packets(r.output@),
        r.error ==> stream_packets(r.output@.drop_last()),
        r.timed_out ==> r.error && r.output@.last().packet@ == PacketView::Error("timeout"@),
        r.completed ==> !r.timed_out,
        payload_passthrough(r.output@, model.edges@, payload@, payload@.len() as int),
{
    let mut router = RouterState::new();
    let en = model.edges.len();
    let mut k: usize = 0;
    while k < en
        invariant
            router.wf(),
            !router.error_latch,
            router.output@.len() == 0,
            forall|j: int|
                0 <= j < k && (#[trigger] model.edges@[j]).to_node != SCHEMATIC_OUTPUT
                    ==> spec_has_buf(
                    router.buffers@,
                    model.edges@[j].to_node as int,
                    model.edges@[j].to_port@,
                ),
        decreases en - k,
    {
        let e = &model.edges[k];
        if e.to_node != SCHEMATIC_OUTPUT {
            match router.find_buffer(e.to_node, &e.to_port) {
                Some(_) => {},
                None => {
                    let ghost pre = router.buffers@;
                    match find_default(&model.defaults, e.to_node, &e.to_port) {
                        Some(d) => router.add_buffer(e.to_node, e.to_port.clone(), true, d),
                        None => router.add_buffer(
                            e.to_node,
                            e.to_port.clone(),
                            false,
                            Vec::new(),
                        ),
                    }
                    proof {
                        assert forall|j: int|
                            0 <= j < k && (#[trigger] model.edges@[j]).to_node
                                != SCHEMATIC_OUTPUT implies spec_has_buf(
                            router.buffers@,
                            model.edges@[j].to_node as int,
                            model.edges@[j].to_port@,
                        ) by {
                            let w = choose|w: int|
                                0 <= w < pre.len() && pre[w].node == model.edges@[j].to_node && (
                                #[trigger] pre[w].port)@ == model.edges@[j].to_port@;
                            assert(router.buffers@[w] == pre[w]);
                        }
                        let last = router.buffers@.len() - 1;
                        assert(router.buffers@[last].node == e.to_node);
                        assert(router.buffers@[last].port@ == e.to_port@);
                    }
                },
            }
        }
        k = k + 1;
    }
    proof {
        assert(buffers_cover(router.buffers@, model.edges@));
    }
    // Queue the payload as packets out of SCHEMATIC_INPUT, each port then
    // closed with Done.
    let pn = payload.len();
    let mut p: usize = 0;
    while p < pn
        invariant
            router.wf(),
            buffers_cover(router.buffers@, model.edges@),
            p <= pn,
            stream_packets(router.output@),
            payload_passthrough(router.output@, model.edges@, payload@, p as int),
        decreases pn - p,
    {
        let data = Packet::Data(payload[p].1.clone());
        let ghost out0 = router.output@;
        route_all(&mut router, model, SCHEMATIC_INPUT, &payload[p].0, &data);
        let ghost out1 = router.output@;
        proof {
            carry_passthrough_step(out0, out1, model, payload@, p as int);
            assert forall|k: int|
                0 <= k < model.edges@.len() && (#[trigger] model.edges@[k]).from_node
                    == SCHEMATIC_INPUT && model.edges@[k].from_port@ == payload@[p as int].0@
                    && model.edges@[k].to_node == SCHEMATIC_OUTPUT implies crate::router::output_carries(
                out1,
                model.edges@[k].to_port@,
                PacketView::Data(payload@[p as int].1@),
            ) by {}
        }
        route_all(&mut router, model, SCHEMATIC_INPUT, &payload[p].0, &Packet::Done);
        proof {
            carry_passthrough_step(out1, router.output@, model, payload@, p as int);
            assert forall|k: int|
                0 <= k < model.edges@.len() && (#[trigger] model.edges@[k]).from_node
                    == SCHEMATIC_INPUT && model.edges@[k].from_port@ == payload@[p as int].0@
                    && model.edges@[k].to_node == SCHEMATIC_OUTPUT implies crate::router::output_carries(
                router.output@,
                model.edges@[k].to_port@,
                PacketView::Data(payload@[p as int].1@),
            ) by {
                lemma_carries_preserved(
                    out1,
                    router.output@,
                    model.edges@[k].to_port@,
                    PacketView::Data(payload@[p as int].1@),
                );
            }
            assert(payload_passthrough(router.output@, model.edges@, payload@, p + 1));
        }
        p = p + 1;
    }
    // Drive: fire any ready node until the invocation quiesces or the step
    // budget standing in for the deadline is spent.
    let mut fuel_left = fuel;
    while fuel_left > 0
        invariant
            router.wf(),
            reg.wf(),
            buffers_cover(router.buffers@, model.edges@),
            stream_packets(router.output@),
            payload_passthrough(router.output@, model.edges@, payload@, pn as int),
        decreases fuel_left,
    {
        fuel_left = fuel_left - 1;
        let nn = model.nodes.len();
        let mut node: usize = 2;
        let mut fired = false;
        while node < nn
            invariant
                router.wf(),
                reg.wf(),
                buffers_cover(router.buffers@, model.edges@),
                2 <= node,
                node <= nn,
                stream_packets(router.output@),
                payload_passthrough(router.output@, model.edges@, payload@, pn as int),
            decreases nn - node,
        {
            if node_fireable(&router, node) {
                let ghost out0 = router.output@;
                fire_node(&mut router, model, reg, node);
                proof {
                    carry_passthrough_step(out0, router.output@, model, payload@, pn as int);
                }
                fired = true;
                break ;
            }
            node = node + 1;
        }
        if !fired {
            break ;
        }
    }
    let completed = check_all_done(&router.output, &model.outputs);
    let error = router.error_latch || !completed;
    let timed_out = !completed && !router.error_latch;
    let mut output = router.output;
    if error {
        let ghost pre_out = output@;
        let msg = if router.error_latch {
            router.error_msg.clone()
        } else {
            String::from_str("timeout")
        };
        output.push(PortPacket { port: String::new(), packet: Packet::Error(msg) });
        proof {
            assert(output@.drop_last() =~= pre_out);
            carry_passthrough_step(pre_out, output@, model, payload@, pn as int);
        }
        proof {
            assert forall|q: int|
                0 <= q < model.outputs@.len() implies port_done(
                pre_out,
                (#[trigger] model.outputs@[q]).name@,
            ) == port_done(output@, model.outputs@[q].name@) by {
                let port = model.outputs@[q].name@;
                if port_done(pre_out, port) {
                    let w = choose|w: int|
                        0 <= w < pre_out.len() && (#[trigger] pre_out[w])@ == (
                        port,
                        PacketView::Done,
                    );
                    assert(output@[w]@ == (port, PacketView::Done));
                }
                if port_done(output@, port) {
                    let w = choose|w: int|
                        0 <= w < output@.len() && (#[trigger] output@[w])@ == (
                        port,
                        PacketView::Done,
                    );
                    assert(w < pre_out.len());
                    assert(pre_out[w]@ == (port, PacketView::Done));
                }
            }
        }
    }
    proof {
        assert(payload@.subrange(0, pn as int) =~= payload@);
    }
    InvocationOutcome { output, completed, error, timed_out }
}

/// Entries already carried on the output persist when the channel only
/// grows at its end.
proof fn carry_passthrough_step(
    pre_out: Seq<PortPacket>,
    new_out: Seq<PortPacket>,
    model: &SchematicModel,
    payload: Seq<(String, Vec<u8>)>,
    upto: int,
)
    requires
        pre_out.len() <= new_out.len(),
        forall|j: int| 0 <= j < pre_out.len() ==> new_out[j] == pre_out[j],
        payload_passthrough(pre_out, model.edges@, payload, upto),
    ensures
        payload_passthrough(new_out, model.edges@, payload, upto),
{
    assert forall|pi: int, k: int|
        0 <= pi < upto && 0 <= k < model.edges@.len() && (#[trigger] model.edges@[k]).from_node
            == SCHEMATIC_INPUT && model.edges@[k].from_port@ == (#[trigger] payload[pi]).0@
            && model.edges@[k].to_node == SCHEMATIC_OUTPUT implies crate::router::output_carries(
        new_out,
        model.edges@[k].to_port@,
        PacketView::Data(payload[pi].1@),
    ) by {
        lemma_carries_preserved(
            pre_out,
            new_out,
            model.edges@[k].to_port@,
            PacketView::Data(payload[pi].1@),
        );
    }
}

/// Whether node `n` can fire: every one of its input buffers has a packet
/// queued or a declared default, and at least one has a real packet.
fn node_fireable(router: &RouterState, n: usize) -> (r: bool)
{
    let bn = router.buffers.len();
    let mut any_packet = false;
    let mut i: usize = 0;
    while i < bn
        invariant
            bn == router.buffers@.len(),
            i <= bn,
        decreases bn - i,
    {
        if router.buffers[i].node == n {
            if router.buffers[i].queue.len() > 0 {
                any_packet = true;
            } else if !router.buffers[i].has_default {
                return false;
            }
        }
        i = i + 1;
    }
    any_packet
}

proof fn lemma_cover_preserved(old_bufs: Seq<PortBuffer>, new_bufs: Seq<PortBuffer>, edges: Seq<
    Edge,
>)
    requires
        old_bufs.len() == new_bufs.len(),
        forall|j: int|
            0 <= j < old_bufs.len() ==> (#[trigger] new_bufs[j]).node == old_bufs[j].node
                && new_bufs[j].port == old_bufs[j].port,
        buffers_cover(old_bufs, edges),
    ensures
        buffers_cover(new_bufs, edges),
{
    assert forall|k: int|
        0 <= k < edges.len() && (#[trigger] edges[k]).to_node != SCHEMATIC_OUTPUT implies spec_has_buf(
        new_bufs,
        edges[k].to_node as int,
        edges[k].to_port@,
    ) by {
        let w = choose|w: int|
            0 <= w < old_bufs.len() && old_bufs[w].node == edges[k].to_node as int && (
            #[trigger] old_bufs[w].port)@ == edges[k].to_port@;
        assert(new_bufs[w].node == old_bufs[w].node);
        assert(new_bufs[w].port@ == edges[k].to_port@);
    }
}

/// Fans one packet out along the model's edges, keeping every edge target
/// covered by a buffer.
fn route_all(
    router: &mut RouterState,
    model: &SchematicModel,
    from: usize,
    port: &String,
    packet: &Packet,
)
    requires
        old(router).wf(),
        buffers_cover(old(router).buffers@, model.edges@),
    ensures
        final(router).wf(),
        buffers_cover(final(router).buffers@, model.edges@),
        final(router).buffers@.len() == old(router).buffers@.len(),
        old(router).error_latch ==> final(router).error_latch,
        old(router).output@.len() <= final(router).output@.len(),
        forall|j: int|
            0 <= j < old(router).output@.len() ==> final(router).output@[j] == old(
                router,
            ).output@[j],
        forall|m: int|
            old(router).output@.len() <= m < final(router).output@.len()
                ==> (#[trigger] final(router).output@[m]).packet@ == packet@,
        forall|k: int|
            0 <= k < model.edges@.len() && (#[trigger] model.edges@[k]).from_node == from
                && model.edges@[k].from_port@ == port@ && model.edges@[k].to_node
                == SCHEMATIC_OUTPUT ==> crate::router::output_carries(
                final(router).output@,
                model.edges@[k].to_port@,
                packet@,
            ),
{
    proof {
        assert forall|k: int|
            0 <= k < model.edges@.len() && (#[trigger] model.edges@[k]).from_node == from
                && model.edges@[k].from_port@ == port@ && model.edges@[k].to_node
                != SCHEMATIC_OUTPUT implies spec_has_buf(
            old(router).buffers@,
            model.edges@[k].to_node as int,
            model.edges@[k].to_port@,
        ) by {}
    }
    let ghost pre = router.buffers@;
    let _ = router.route(&model.edges, from, port, packet);
    proof {
        lemma_cover_preserved(pre, router.buffers@, model.edges@);
    }
}

/// Drains one packet (or the default) from each input of node `n`, invokes
/// the owning provider on the drained payload, and routes every produced
/// packet; a provider failure latches the invocation's error.
fn fire_node(router: &mut RouterState, model: &SchematicModel, reg: &mut Registry, n: usize)
    requires
        old(router).wf(),
        buffers_cover(old(router).buffers@, model.edges@),
        old(reg).wf(),
        model.wf(),
        2 <= n < model.nodes@.len(),
    ensures
        final(router).wf(),
        buffers_cover(final(router).buffers@, model.edges@),
        final(reg).wf(),
        old(router).output@.len() <= final(router).output@.len(),
        forall|j: int|
            0 <= j < old(router).output@.len() ==> final(router).output@[j] == old(
                router,
            ).output@[j],
        forall|m: int|
            old(router).output@.len() <= m < final(router).output@.len() ==> {
                let p = (#[trigger] final(router).output@[m]).packet@;
                p is Data || p is Done
            },
{
    let mut pay: Vec<(String, Packet)> = Vec::new();
    let bn = router.buffers.len();
    let mut i: usize = 0;
    while i < bn
        invariant
            router.wf(),
            bn == router.buffers@.len(),
            i <= bn,
            buffers_cover(router.buffers@, model.edges@),
            router.output == old(router).output,
        decreases bn - i,
    {
        if router.buffers[i].node == n {
            let port = router.buffers[i].port.clone();
            let ghost pre = router.buffers@;
            match router.drain_one(i) {
                Some(pkt) => {
                    pay.push((port, pkt));
                },
                None => {},
            }
            proof {
                assert forall|j: int|
                    0 <= j < pre.len() implies (#[trigger] router.buffers@[j]).node == pre[j].node
                    && router.buffers@[j].port == pre[j].port by {
                    if j != i {
                        assert(router.buffers@[j] == pre[j]);
                    }
                }
                lemma_cover_preserved(pre, router.buffers@, model.edges@);
            }
        }
        i = i + 1;
    }
    // End-of-stream markers carry no input; a batch of only markers fires
    // nothing.
    let mut live: Vec<(String, Packet)> = Vec::new();
    let pn2 = pay.len();
    let mut q: usize = 0;
    while q < pn2
        invariant
            pn2 == pay@.len(),
            q <= pn2,
        decreases pn2 - q,
    {
        let is_done = match &pay[q].1 {
            Packet::Done => true,
            _ => false,
        };
        if !is_done {
            let entry = (pay[q].0.clone(), pay[q].1.duplicate());
            live.push(entry);
        }
        q = q + 1;
    }
    if live.len() == 0 {
        return ;
    }
    match dispatch(reg, &model.nodes[n].component, &live) {
        Ok(outs) => {
            let on = outs.len();
            let mut o: usize = 0;
            while o < on
                invariant
                    router.wf(),
                    on == outs@.len(),
                    o <= on,
                    buffers_cover(router.buffers@, model.edges@),
                    forall|j: int|
                        0 <= j < outs@.len() ==> (#[trigger] outs@[j]).packet@ is Data
                            || outs@[j].packet@ is Done,
                    old(router).output@.len() <= router.output@.len(),
                    forall|j: int|
                        0 <= j < old(router).output@.len() ==> router.output@[j] == old(
                            router,
                        ).output@[j],
                    forall|m: int|
                        old(router).output@.len() <= m < router.output@.len() ==> {
                            let p = (#[trigger] router.output@[m]).packet@;
                            p is Data || p is Done
                        },
                decreases on - o,
            {
                route_all(router, model, n, &outs[o].port, &outs[o].packet);
                o = o + 1;
            }
        },
        Err(e) => {
            router.error_latch = true;
            router.error_msg = provider_error_message(&e);
        },
    }
}

/// A human-readable description of a provider failure.
pub fn provider_error_message(e: &ProviderError) -> (r: String)
{
    match e {
        ProviderError::ComponentNotFound(c) => String::from_str("component not found: ").concat(
            c.as_str(),
        ),
        ProviderError::TypeMismatch(p) => String::from_str("type mismatch on port: ").concat(
            p.as_str(),
        ),
        ProviderError::ProviderFailure(m) => String::from_str("provider error: ").concat(
            m.as_str(),
        ),
    }
}

/// Decodes the text-list payload value on `port`.
#[verifier::loop_isolation(false)]
fn text_list_arg(payload: &Vec<(String, Packet)>, port: &str) -> (r: Option<Vec<String>>)
    ensures
        match r {
            Some(v) => spec_text_list_arg(payload.deep_view(), port@) == Some(v.deep_view()),
            None => spec_text_list_arg(payload.deep_view(), port@) is None,
        },
{
    let key = port.to_owned();
    let n = payload.len();
    let ghost full = payload.deep_view();
    proof {
        assert(full.skip(0) =~= full);
    }
    let mut i: usize = 0;
    while i < n
        invariant
            i <= n,
            spec_text_list_arg(full, port@) == spec_text_list_arg(full.skip(i as int), port@),
        decreases n - i,
    {
        proof {
            assert(full.skip(i as int)[0] == (payload@[i as int].0@, payload@[i as int].1@));
            assert(full.skip(i as int).drop_first() =~= full.skip(i + 1));
        }
        if payload[i].0 == key {
            match &payload[i].1 {
                Packet::Data(bytes) => {
                    match decode(bytes, &TypeTag::ListOf) {
                        Ok(Value::ValueList(vals)) => {
                            let ghost items = crate::codec::value_list_view(vals@);
                            proof {
                                crate::codec::lemma_value_list_view_props(vals@);
                            }
                            let mut out: Vec<String> = Vec::new();
                            let m = vals.len();
                            let mut j: usize = 0;
                            while j < m
                                invariant
                                    j <= m,
                                    out.deep_view() =~= texts_of(items.subrange(0, j as int)),
                                    forall|jj: int| 0 <= jj < j ==> (#[trigger] items[jj]) is Text,
                                decreases m - j,
                            {
                                match &vals[j] {
                                    Value::Text(s) => {
                                        let ghost pre = out.deep_view();
                                        out.push(s.clone());
                                        proof {
                                            assert(items[j as int] == vals@[j as int]@);
                                            assert(out.deep_view() =~= pre.push(s@));
                                            assert(texts_of(items.subrange(0, j + 1))
                                                =~= texts_of(items.subrange(0, j as int)).push(
                                                items[j as int]->Text_0,
                                            ));
                                        }
                                    },
                                    other => {
                                        proof {
                                            assert(items[j as int] == vals@[j as int]@);
                                            assert(!(items[j as int] is Text));
                                        }
                                        return None;
                                    },
                                }
                                j = j + 1;
                            }
                            proof {
                                assert(items.subrange(0, m as int) =~= items);
                                assert(all_texts(items));
                            }
                            return Some(out);
                        },
                        Ok(other) => {
                            // A value the list tag admits is a list value, so
                            // this arm cannot be reached.
                            proof {
                                assert(other@ is ValueList);
                                assert(!(other@ is ValueList));
                            }
                            return None;
                        },
                        Err(e) => {
                            match e {
                                CodecError::TypeError => {
                                    return None;
                                },
                                CodecError::Malformed => {
                                    return None;
                                },
                            }
                        },
                    }
                },
                _ => {
                    return None;
                },
            }
        }
        i = i + 1;
    }
    proof {
        assert(full.skip(n as int) =~= Seq::<(Seq<char>, PacketView)>::empty());
    }
    None
}

} // verus!
