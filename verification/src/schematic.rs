//! The in-memory schematic model: nodes, edges and defaults, and the
//! signature validation that initialization performs on every edge.
use crate::router::Edge;
use crate::signature::spec_assignable;
use crate::signature::assignable;
use crate::signature::ComponentSignature;
use crate::signature::PortSignature;
use crate::SCHEMATIC_INPUT;
use crate::SCHEMATIC_OUTPUT;
use vstd::prelude::*;

verus! {

/// One node of a schematic: a component hosted by a provider.
#[derive(Debug)]
pub struct NodeDef {
    pub provider: String,
    pub component: String,
}

/// A schematic: a directed multigraph of components with typed ports.
/// Node slots `SCHEMATIC_INPUT` and `SCHEMATIC_OUTPUT` are reserved.
#[derive(Debug)]
pub struct SchematicModel {
    pub name: String,
    pub nodes: Vec<NodeDef>,
    pub edges: Vec<Edge>,
    pub inputs: Vec<PortSignature>,
    pub outputs: Vec<PortSignature>,
    pub defaults: Vec<(usize, String, Vec<u8>)>,
}

impl SchematicModel {
    /// Edges stay inside the node table, never produce from the output side
    /// and never consume on the input side.
    pub open spec fn wf(&self) -> bool {
        &&& self.nodes@.len() >= 2
        &&& forall|k: int|
            0 <= k < self.edges@.len() ==> {
                let e = #[trigger] self.edges@[k];
                &&& e.from_node < self.nodes@.len()
                &&& e.to_node < self.nodes@.len()
                &&& e.from_node != SCHEMATIC_OUTPUT
                &&& e.to_node != SCHEMATIC_INPUT
            }
    }
}

/// The declared type of the named port, first declaration wins.
pub open spec fn port_type(ports: Seq<PortSignature>, name: Seq<char>) -> Option<Seq<char>>
    decreases ports.len(),
{
    if ports.len() == 0 {
        None
    } else if ports[0].name@ == name {
        Some(ports[0].type_string@)
    } else {
        port_type(ports.drop_first(), name)
    }
}

proof fn lemma_port_type_at(ports: Seq<PortSignature>, name: Seq<char>, i: int)
    requires
        0 <= i < ports.len(),
        ports[i].name@ == name,
        forall|j: int| 0 <= j < i ==> (#[trigger] ports[j]).name@ != name,
    ensures
        port_type(ports, name) == Some(ports[i].type_string@),
    decreases ports.len(),
{
    if i > 0 {
        assert forall|j: int| 0 <= j < i - 1 implies (#[trigger] ports.drop_first()[j]).name@
            != name by {
            assert(ports.drop_first()[j] == ports[j + 1]);
        }
        assert(ports.drop_first()[i - 1] == ports[i]);
        lemma_port_type_at(ports.drop_first(), name, i - 1);
    }
}

proof fn lemma_port_type_none(ports: Seq<PortSignature>, name: Seq<char>)
    requires
        forall|j: int| 0 <= j < ports.len() ==> (#[trigger] ports[j]).name@ != name,
    ensures
        port_type(ports, name) is None,
    decreases ports.len(),
{
    if ports.len() > 0 {
        assert forall|j: int| 0 <= j < ports.drop_first().len() implies (
        #[trigger] ports.drop_first()[j]).name@ != name by {
            assert(ports.drop_first()[j] == ports[j + 1]);
        }
        lemma_port_type_none(ports.drop_first(), name);
    }
}

/// The declared type of the named port.
pub fn port_type_of(ports: &Vec<PortSignature>, name: &String) -> (r: Option<String>)
    ensures
        match r {
            Some(t) => port_type(ports@, name@) == Some(t@),
            None => port_type(ports@, name@) is None,
        },
{
    let n = ports.len();
    let mut i: usize = 0;
    while i < n
        invariant
            n == ports@.len(),
            i <= n,
            forall|j: int| 0 <= j < i ==> (#[trigger] ports@[j]).name@ != name@,
        decreases n - i,
    {
        if ports[i].name == *name {
            proof {
                lemma_port_type_at(ports@, name@, i as int);
            }
            return Some(ports[i].type_string.clone());
        }
        i = i + 1;
    }
    proof {
        lemma_port_type_none(ports@, name@);
    }
    None
}

/// The signature of the component a node runs, as the registry reported it.
pub open spec fn node_signature(
    sigs: Seq<(String, ComponentSignature)>,
    nodes: Seq<NodeDef>,
    n: int,
) -> Option<ComponentSignature> {
    if crate::assoc::assoc_map(sigs).contains_key(nodes[n].component@) {
        Some(crate::assoc::assoc_map(sigs)[nodes[n].component@])
    } else {
        None
    }
}

/// Whether edge `k` of the model is well-typed against the reported
/// signatures: its producer's declared output type is assignable to its
/// consumer's declared input type, and every endpoint is declared.
pub open spec fn edge_type_ok(
    model: &SchematicModel,
    sigs: Seq<(String, ComponentSignature)>,
    k: int,
) -> bool {
    let e = model.edges@[k];
    let producer = if e.from_node == SCHEMATIC_INPUT {
        port_type(model.inputs@, e.from_port@)
    } else {
        match node_signature(sigs, model.nodes@, e.from_node as int) {
            Some(sig) => port_type(sig.outputs@, e.from_port@),
            None => None,
        }
    };
    let consumer = if e.to_node == SCHEMATIC_OUTPUT {
        port_type(model.outputs@, e.to_port@)
    } else {
        match node_signature(sigs, model.nodes@, e.to_node as int) {
            Some(sig) => port_type(sig.inputs@, e.to_port@),
            None => None,
        }
    };
    match (producer, consumer) {
        (Some(p), Some(c)) => spec_assignable(p, c),
        _ => false,
    }
}

/// Validates every edge of the model against the reported signatures.
/// Succeeds exactly when every edge is well-typed; otherwise reports the
/// indices of all offending edges.
#[verifier::loop_isolation(false)]
pub fn validate_model(model: &SchematicModel, sigs: &Vec<(String, ComponentSignature)>) -> (r:
    Result<(), Vec<usize>>)
    requires
        model.wf(),
    ensures
        r is Ok <==> (forall|k: int| 0 <= k < model.edges@.len() ==> edge_type_ok(model, sigs@, k)),
        r matches Err(bad) ==> bad@.len() > 0 && (forall|m: int|
            0 <= m < bad@.len() ==> (#[trigger] bad@[m]) < model.edges@.len() && !edge_type_ok(
                model,
                sigs@,
                bad@[m] as int,
            )) && (forall|k: int|
            0 <= k < model.edges@.len() && !edge_type_ok(model, sigs@, k) ==> bad@.contains(
                k as usize,
            )),
{
    let mut bad: Vec<usize> = Vec::new();
    let n = model.edges.len();
    let mut k: usize = 0;
    while k < n
        invariant
            k <= n,
            forall|m: int|
                0 <= m < bad@.len() ==> (#[trigger] bad@[m]) < model.edges@.len()
                    && !edge_type_ok(model, sigs@, bad@[m] as int),
            forall|j: int|
                0 <= j < k && !edge_type_ok(model, sigs@, j) ==> bad@.contains(j as usize),
            forall|j: int| 0 <= j < k && edge_type_ok(model, sigs@, j) ==> !bad@.contains(
                j as usize,
            ),
            bad@.len() == 0 <==> (forall|j: int| 0 <= j < k ==> edge_type_ok(model, sigs@, j)),
        decreases n - k,
    {
        let e = &model.edges[k];
        let producer: Option<String> = if e.from_node == SCHEMATIC_INPUT {
            port_type_of(&model.inputs, &e.from_port)
        } else {
            match crate::assoc::assoc_get(sigs, &model.nodes[e.from_node].component) {
                Some(sig) => port_type_of(&sig.outputs, &e.from_port),
                None => None,
            }
        };
        let consumer: Option<String> = if e.to_node == SCHEMATIC_OUTPUT {
            port_type_of(&model.outputs, &e.to_port)
        } else {
            match crate::assoc::assoc_get(sigs, &model.nodes[e.to_node].component) {
                Some(sig) => port_type_of(&sig.inputs, &e.to_port),
                None => None,
            }
        };
        let ok = match (producer, consumer) {
            (Some(p), Some(c)) => assignable(&p, &c),
            _ => false,
        };
        proof {
            assert(ok == edge_type_ok(model, sigs@, k as int));
        }
        if !ok {
            let ghost pre = bad@;
            bad.push(k);
            proof {
                assert(bad@.last() == k as usize);
                assert forall|j: int|
                    0 <= j < k + 1 && !edge_type_ok(model, sigs@, j) implies bad@.contains(
                    j as usize,
                ) by {
                    if j < k as int {
                        assert(pre.contains(j as usize));
                        let w = choose|w: int| 0 <= w < pre.len() && pre[w] == j as usize;
                        assert(bad@[w] == j as usize);
                    } else {
                        assert(bad@[bad@.len() - 1] == j as usize);
                    }
                }
            }
        }
        k = k + 1;
    }
    if bad.len() == 0 {
        Ok(())
    } else {
        Err(bad)
    }
}

} // verus!
