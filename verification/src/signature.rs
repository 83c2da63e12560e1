//! Signatures: the declared ports and types of components, providers and
//! schematics, and the type compatibility relation that schematic validation
//! enforces on every edge.
use vstd::prelude::*;

verus! {

/// A named, typed port.
#[derive(Debug, Clone)]
pub struct PortSignature {
    pub name: String,
    pub type_string: String,
}

impl PortSignature {
    pub fn new(name: String, type_string: String) -> (r: Self)
        ensures
            r.name@ == name@,
            r.type_string@ == type_string@,
    {
        Self { name, type_string }
    }
}

/// A component's declared interface.
#[derive(Debug, Clone)]
pub struct ComponentSignature {
    pub name: String,
    pub inputs: Vec<PortSignature>,
    pub outputs: Vec<PortSignature>,
}

/// The components a provider exposes.
#[derive(Debug, Clone)]
pub struct ProviderSignature {
    pub name: String,
    pub components: Vec<ComponentSignature>,
}

/// A schematic's external interface and the providers it depends on.
#[derive(Debug, Clone)]
pub struct SchematicSignature {
    pub name: String,
    pub inputs: Vec<PortSignature>,
    pub outputs: Vec<PortSignature>,
    pub providers: Vec<ProviderSignature>,
}

/// What a provider hosts: a component or a whole schematic.
#[derive(Debug)]
pub enum HostedType {
    Component(ComponentSignature),
    Schematic(SchematicSignature),
}

/// Duration statistics of one component's executions.
#[derive(Debug, Clone)]
pub struct ExecutionStatistics {
    pub max_time: usize,
    pub min_time: usize,
    pub average: usize,
}

/// Call statistics of one component.
#[derive(Debug, Clone)]
pub struct Statistics {
    pub num_calls: u64,
    pub execution_duration: ExecutionStatistics,
}

/// A producer type may feed a consumer type when the types match exactly or
/// the consumer accepts anything (width subtyping over `any`).
pub open spec fn spec_assignable(producer: Seq<char>, consumer: Seq<char>) -> bool {
    consumer == "any"@ || producer == consumer
}

/// Decides the type compatibility relation.
pub fn assignable(producer: &String, consumer: &String) -> (r: bool)
    ensures
        r == spec_assignable(producer@, consumer@),
{
    let any = String::from_str("any");
    *consumer == any || *producer == *consumer
}

/// Port names are unique within the list and never empty.
pub open spec fn ports_wf(ports: Seq<PortSignature>) -> bool {
    &&& forall|i: int, j: int|
        0 <= i < j < ports.len() ==> (#[trigger] ports[i]).name@ != (#[trigger] ports[j]).name@
    &&& forall|i: int| 0 <= i < ports.len() ==> (#[trigger] ports[i]).name@.len() > 0
}

impl ComponentSignature {
    /// Input and output port names are each unique and nonempty.
    pub open spec fn wf(&self) -> bool {
        ports_wf(self.inputs@) && ports_wf(self.outputs@)
    }
}

} // verus!
