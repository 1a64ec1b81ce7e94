use vstd::prelude::*;
use crate::naming::{str_eq, strings_view};
use crate::types::{DataType, DataTypeFormat};

verus! {

/// One schema node of the resolved document graph. Child nodes are indices
/// into the arena of schemas that holds this node.
pub struct Schema {
    pub name: Option<String>,
    pub reference: Option<String>,
    pub title: Option<String>,
    pub description: Option<String>,
    pub data_type: Option<DataType>,
    pub format: Option<DataTypeFormat>,
    /// Property name and the index of its schema.
    pub properties: Option<Vec<(String, usize)>>,
    pub items: Option<usize>,
    pub additional_properties: Option<usize>,
    pub required: Vec<String>,
    /// Set by the resolution phase when this node closes a reference cycle.
    pub cyclic: bool,
}

/// Whether `p` is in the schema's required set.
pub open spec fn requires_property(s: Schema, p: Seq<char>) -> bool {
    strings_view(s.required@).contains(p)
}

/// Every child index of every node stays inside the arena.
pub open spec fn schemas_wf(defs: Seq<Schema>) -> bool {
    forall|i: int|
        #![trigger defs[i]]
        0 <= i < defs.len() ==> {
            &&& (defs[i].items matches Some(c) ==> c < defs.len())
            &&& (defs[i].additional_properties matches Some(c) ==> c < defs.len())
            &&& (defs[i].properties matches Some(ps) ==> forall|j: int|
                0 <= j < ps@.len() ==> #[trigger] ps@[j].1 < defs.len())
        }
}

impl Schema {
    /// A node with no name, kind, children or flags.
    pub fn empty() -> (r: Schema)
        ensures
            r.name is None,
            r.data_type is None,
            r.format is None,
            r.properties is None,
            r.items is None,
            r.additional_properties is None,
            r.required@.len() == 0,
            !r.cyclic,
    {
        Schema {
            name: None,
            reference: None,
            title: None,
            description: None,
            data_type: None,
            format: None,
            properties: None,
            items: None,
            additional_properties: None,
            required: Vec::new(),
            cyclic: false,
        }
    }

    pub fn is_cyclic(&self) -> (r: bool)
        ensures
            r == self.cyclic,
    {
        self.cyclic
    }

    pub fn has_required_properties(&self) -> (r: bool)
        ensures
            r == (self.required@.len() > 0),
    {
        self.required.len() > 0
    }

    pub fn is_required_property(&self, property: &str) -> (r: bool)
        ensures
            r == requires_property(*self, property@),
    {
        let mut i: usize = 0;
        while i < self.required.len()
            invariant
                i <= self.required@.len(),
                forall|j: int| 0 <= j < i ==> self.required@[j]@ != property@,
            decreases self.required@.len() - i,
        {
            if str_eq(self.required[i].as_str(), property) {
                assert(strings_view(self.required@)[i as int] == property@);
                return true;
            }
            i = i + 1;
        }
        assert(!strings_view(self.required@).contains(property@)) by {
            if strings_view(self.required@).contains(property@) {
                let j = choose|j: int|
                    0 <= j < strings_view(self.required@).len() && strings_view(
                        self.required@,
                    )[j] == property@;
                assert(self.required@[j]@ == property@);
            }
        }
        false
    }
}

/// The HTTP methods an operation can be bound to.
#[derive(Clone, Copy, Debug, PartialEq, Eq, Structural)]
pub enum HttpMethod {
    Get,
    Put,
    Post,
    Delete,
    Options,
    Head,
    Patch,
}

/// A parameter as the document declares it.
pub struct ApiParameter {
    pub name: String,
    pub data_type: Option<DataType>,
    pub format: Option<DataTypeFormat>,
    /// The schema of a body parameter.
    pub schema: Option<usize>,
    pub required: bool,
}

pub struct Response {
    pub schema: Option<usize>,
}

pub struct Operation {
    pub operation_id: Option<String>,
    pub parameters: Option<Vec<ApiParameter>>,
    /// Status code and response, in document order.
    pub responses: Vec<(String, Response)>,
}

/// The operations under one path, with the parameters shared by all of them.
pub struct OperationMap {
    pub parameters: Option<Vec<ApiParameter>>,
    pub methods: Vec<(HttpMethod, Operation)>,
}

/// A parsed document: the schema arena, the named definitions and the paths.
pub struct Api {
    pub schemas: Vec<Schema>,
    /// Definition name and the index of its schema.
    pub definitions: Vec<(String, usize)>,
    pub paths: Vec<(String, OperationMap)>,
}

pub open spec fn params_wf(ps: Seq<ApiParameter>, n: int) -> bool {
    forall|i: int| 0 <= i < ps.len() ==> (#[trigger] ps[i].schema matches Some(c) ==> c < n)
}

pub open spec fn opt_params_wf(ps: Option<Vec<ApiParameter>>, n: int) -> bool {
    ps matches Some(v) ==> params_wf(v@, n)
}

pub open spec fn operation_wf(op: Operation, n: int) -> bool {
    &&& opt_params_wf(op.parameters, n)
    &&& forall|i: int|
        0 <= i < op.responses@.len() ==> (#[trigger] op.responses@[i].1.schema matches Some(c)
            ==> c < n)
}

pub open spec fn operation_map_wf(m: OperationMap, n: int) -> bool {
    &&& opt_params_wf(m.parameters, n)
    &&& forall|i: int| 0 <= i < m.methods@.len() ==> operation_wf(#[trigger] m.methods@[i].1, n)
}

/// Every index in the document points into its schema arena.
pub open spec fn api_wf(api: Api) -> bool {
    let n = api.schemas@.len() as int;
    &&& schemas_wf(api.schemas@)
    &&& forall|i: int| 0 <= i < api.definitions@.len() ==> #[trigger] api.definitions@[i].1 < n
    &&& forall|i: int| 0 <= i < api.paths@.len() ==> operation_map_wf(#[trigger] api.paths@[i].1, n)
}

} // verus!
