use vstd::prelude::*;
use crate::assoc::{assoc_get, assoc_insert, keys_unique, lemma_insert_unique, lemma_key_index};
use crate::model::HttpMethod;
use crate::naming::{opt_string_view, str_eq};

verus! {

/// A simplified parameter of an operation.
pub struct Parameter {
    pub name: String,
    pub ty_path: String,
    pub required: bool,
}

pub struct ParamModel {
    pub name: Seq<char>,
    pub ty_path: Seq<char>,
    pub required: bool,
}

impl View for Parameter {
    type V = ParamModel;

    open spec fn view(&self) -> ParamModel {
        ParamModel { name: self.name@, ty_path: self.ty_path@, required: self.required }
    }
}

impl Parameter {
    /// A copy of this parameter.
    pub fn duplicate(&self) -> (r: Parameter)
        ensures
            r@ == self@,
    {
        Parameter { name: self.name.clone(), ty_path: self.ty_path.clone(), required: self.required }
    }
}

pub open spec fn params_view(ps: Seq<Parameter>) -> Seq<ParamModel> {
    ps.map_values(|p: Parameter| p@)
}

/// What a builder for one operation needs.
pub struct OpRequirement {
    pub id: Option<String>,
    pub params: Vec<Parameter>,
    /// Whether the operation sends this type as its body (rather than
    /// receiving it in a response).
    pub body_required: bool,
}

pub struct ReqModel {
    pub id: Option<Seq<char>>,
    pub params: Seq<ParamModel>,
    pub body_required: bool,
}

impl View for OpRequirement {
    type V = ReqModel;

    open spec fn view(&self) -> ReqModel {
        ReqModel {
            id: opt_string_view(self.id),
            params: params_view(self.params@),
            body_required: self.body_required,
        }
    }
}

/// A field of a declared type.
pub struct ObjectField {
    pub name: String,
    /// The wire name, when it differs from `name`.
    pub rename: Option<String>,
    pub ty_path: String,
    pub is_required: bool,
    /// Whether the field needs indirect storage to keep the type finite.
    pub boxed: bool,
}

pub struct FieldModel {
    pub name: Seq<char>,
    pub rename: Option<Seq<char>>,
    pub ty_path: Seq<char>,
    pub is_required: bool,
    pub boxed: bool,
}

impl View for ObjectField {
    type V = FieldModel;

    open spec fn view(&self) -> FieldModel {
        FieldModel {
            name: self.name@,
            rename: opt_string_view(self.rename),
            ty_path: self.ty_path@,
            is_required: self.is_required,
            boxed: self.boxed,
        }
    }
}

pub open spec fn fields_view(fs: Seq<ObjectField>) -> Seq<FieldModel> {
    fs.map_values(|f: ObjectField| f@)
}

pub type MethodReqs = Vec<(HttpMethod, OpRequirement)>;

pub open spec fn method_reqs_view(rs: Seq<(HttpMethod, OpRequirement)>) -> Seq<(HttpMethod, ReqModel)> {
    rs.map_values(|e: (HttpMethod, OpRequirement)| (e.0, e.1@))
}

pub open spec fn path_reqs_view(ps: Seq<(String, MethodReqs)>) -> Seq<(Seq<char>, Seq<(HttpMethod, ReqModel)>)> {
    ps.map_values(|e: (String, MethodReqs)| (e.0@, method_reqs_view(e.1@)))
}

/// A declared type, with the requirements of the operations that use it,
/// keyed by path and then by method.
pub struct ApiObject {
    pub name: String,
    /// Module location, relative to the working root, segments joined by `::`.
    pub path: String,
    pub fields: Vec<ObjectField>,
    pub paths: Vec<(String, MethodReqs)>,
}

pub struct ObjectModel {
    pub name: Seq<char>,
    pub path: Seq<char>,
    pub fields: Seq<FieldModel>,
    pub paths: Seq<(Seq<char>, Seq<(HttpMethod, ReqModel)>)>,
}

impl View for ApiObject {
    type V = ObjectModel;

    open spec fn view(&self) -> ObjectModel {
        ObjectModel {
            name: self.name@,
            path: self.path@,
            fields: fields_view(self.fields@),
            paths: path_reqs_view(self.paths@),
        }
    }
}

/// Paths and, under each path, methods occur once.
pub open spec fn object_wf(o: ObjectModel) -> bool {
    &&& keys_unique(o.paths)
    &&& forall|i: int| 0 <= i < o.paths.len() ==> keys_unique(#[trigger] o.paths[i].1)
}

/// The object after `req` is recorded for `meth` under `path`, replacing an
/// earlier record for the same pair.
pub open spec fn attach(o: ObjectModel, path: Seq<char>, meth: HttpMethod, req: ReqModel) -> ObjectModel {
    let ops = match assoc_get(o.paths, path) {
        Some(ops) => ops,
        None => Seq::empty(),
    };
    ObjectModel { paths: assoc_insert(o.paths, path, assoc_insert(ops, meth, req)), ..o }
}

pub proof fn lemma_attach_wf(o: ObjectModel, path: Seq<char>, meth: HttpMethod, req: ReqModel)
    requires
        object_wf(o),
    ensures
        object_wf(attach(o, path, meth, req)),
{
    let ops = match assoc_get(o.paths, path) {
        Some(ops) => ops,
        None => Seq::empty(),
    };
    if assoc_get(o.paths, path) is Some {
        let k = crate::assoc::key_index(o.paths, path);
        assert(keys_unique(o.paths[k].1));
    }
    lemma_insert_unique(ops, meth, req);
    lemma_insert_unique(o.paths, path, assoc_insert(ops, meth, req));
    let t = attach(o, path, meth, req).paths;
    assert forall|i: int| 0 <= i < t.len() implies keys_unique(#[trigger] t[i].1) by {
        if t[i].0 != path {
            if crate::assoc::has_key(o.paths, path) {
                assert(t[i] == o.paths[i]);
            } else {
                assert(t[i] == o.paths[i]);
            }
        }
    }
}

impl ApiObject {
    /// A declared type with the given name and nothing else.
    pub fn with_name(name: String) -> (r: ApiObject)
        ensures
            r@ == (ObjectModel {
                name: name@,
                path: Seq::empty(),
                fields: Seq::empty(),
                paths: Seq::empty(),
            }),
            object_wf(r@),
    {
        let r = ApiObject { name, path: String::new(), fields: Vec::new(), paths: Vec::new() };
        assert(r@.fields =~= Seq::empty());
        assert(r@.paths =~= Seq::empty());
        r
    }

    /// Records `req` for `meth` under `path`.
    pub fn add_requirement(&mut self, path: &str, meth: HttpMethod, req: OpRequirement)
        requires
            object_wf(old(self)@),
        ensures
            final(self)@ == attach(old(self)@, path@, meth, req@),
            object_wf(final(self)@),
    {
        proof {
            lemma_attach_wf(self@, path@, meth, req@);
        }
        let ghost pv = path_reqs_view(self.paths@);
        let mut i: usize = 0;
        while i < self.paths.len()
            invariant
                i <= self.paths@.len(),
                pv == path_reqs_view(self.paths@),
                forall|j: int| 0 <= j < i ==> #[trigger] pv[j].0 != path@,
            ensures
                i <= self.paths@.len(),
                pv == path_reqs_view(self.paths@),
                forall|j: int| 0 <= j < i ==> #[trigger] pv[j].0 != path@,
                i < self.paths@.len() ==> pv[i as int].0 == path@,
            decreases self.paths@.len() - i,
        {
            if str_eq(self.paths[i].0.as_str(), path) {
                break;
            }
            i = i + 1;
        }
        if i == self.paths.len() {
            assert(!crate::assoc::has_key(pv, path@));
            let mut ops: MethodReqs = Vec::new();
            ops.push((meth, req));
            let ghost before = self.paths@;
            self.paths.push((String::from_str(path), ops));
            proof {
                assert(method_reqs_view(ops@) =~= seq![(meth, req@)]);
                assert(Seq::<(HttpMethod, ReqModel)>::empty().push((meth, req@)) =~= seq![(meth, req@)]);
                assert(!crate::assoc::has_key(Seq::<(HttpMethod, ReqModel)>::empty(), meth));
                assert(path_reqs_view(self.paths@) =~= path_reqs_view(before).push((path@, method_reqs_view(ops@))));
            }
        } else {
            proof {
                lemma_key_index(pv, i as int, path@);
            }
            let (key, mut ops) = self.paths.remove(i);
            let ghost ov = method_reqs_view(ops@);
            assert(ov == pv[i as int].1);
            assert(keys_unique(ov));
            let mut j: usize = 0;
            while j < ops.len()
                invariant
                    j <= ops@.len(),
                    ov == method_reqs_view(ops@),
                    forall|m: int| 0 <= m < j ==> #[trigger] ov[m].0 != meth,
                ensures
                    j <= ops@.len(),
                    ov == method_reqs_view(ops@),
                    forall|m: int| 0 <= m < j ==> #[trigger] ov[m].0 != meth,
                    j < ops@.len() ==> ov[j as int].0 == meth,
                decreases ops@.len() - j,
            {
                if ops[j].0 == meth {
                    break;
                }
                j = j + 1;
            }
            let ghost before_ops = ops@;
            if j == ops.len() {
                assert(!crate::assoc::has_key(ov, meth));
                ops.push((meth, req));
                assert(method_reqs_view(ops@) =~= ov.push((meth, req@)));
            } else {
                proof {
                    lemma_key_index(ov, j as int, meth);
                }
                ops.remove(j);
                ops.insert(j, (meth, req));
                assert(ops@ =~= before_ops.update(j as int, (meth, req)));
                assert(method_reqs_view(ops@) =~= ov.update(j as int, (meth, req@)));
            }
            let ghost ops_v = method_reqs_view(ops@);
            let ghost before = self.paths@;
            self.paths.insert(i, (key, ops));
            proof {
                assert(key@ == path@);
                assert(path_reqs_view(self.paths@) =~= pv.update(i as int, (path@, ops_v)));
            }
        }
    }
}

} // verus!
