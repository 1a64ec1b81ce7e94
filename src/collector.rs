use vstd::prelude::*;
use crate::assoc::{assoc_get, has_key, key_index, lemma_key_index};
use crate::emitter::def_mod_segments;
use crate::error::{EmitError, ErrorModel};
use crate::model::{
    opt_params_wf, operation_map_wf, operation_wf, params_wf, schemas_wf, ApiParameter,
    HttpMethod, Operation, OperationMap, Response, Schema,
};
use crate::naming::{opt_string_view, str_eq, strings_view};
use crate::object::{attach, lemma_attach_wf, params_view, ObjectModel, OpRequirement, ParamModel, Parameter, ReqModel};
use crate::state::{registry_wf, CodegenEmitter, ModPath};
use crate::types::{matching_unit_type, unit_type};

verus! {

pub type Registry = Seq<(ModPath, ObjectModel)>;

/// One parameter added to what the earlier ones of its list collected.
pub open spec fn param_step(
    reg: Registry,
    defs: Seq<Schema>,
    sep: char,
    path: Seq<char>,
    acc: (Seq<ParamModel>, Option<ModPath>),
    p: ApiParameter,
) -> Result<(Seq<ParamModel>, Option<ModPath>), ErrorModel> {
    match p.schema {
        Some(c) => match def_mod_segments(defs[c as int], sep) {
            Err(e) => Err(e),
            Ok(k) => if has_key(reg, k) {
                Ok((acc.0, Some(k)))
            } else {
                Err(ErrorModel::UnsupportedParameterDefinition(p.name@, path))
            },
        },
        None => match unit_type(p.format, p.data_type) {
            Some(t) => Ok((acc.0.push(ParamModel { name: p.name@, ty_path: t, required: p.required }), acc.1)),
            None => Err(ErrorModel::UnknownParameterType(p.name@, path)),
        },
    }
}

/// The scalar parameters of a list, in order, and the module path of the
/// last body parameter; the first invalid parameter is the error.
pub open spec fn params_spec(reg: Registry, defs: Seq<Schema>, sep: char, path: Seq<char>, ps: Seq<ApiParameter>) -> Result<(Seq<ParamModel>, Option<ModPath>), ErrorModel>
    decreases ps.len(),
{
    if ps.len() == 0 {
        Ok((Seq::empty(), None))
    } else {
        match params_spec(reg, defs, sep, path, ps.drop_last()) {
            Err(e) => Err(e),
            Ok(acc) => param_step(reg, defs, sep, path, acc, ps.last()),
        }
    }
}

pub open spec fn names_of(ps: Seq<ParamModel>) -> Seq<Seq<char>> {
    ps.map_values(|p: ParamModel| p.name)
}

/// The local parameters followed by every shared one whose name is not
/// already taken.
pub open spec fn merge_params(local: Seq<ParamModel>, shared: Seq<ParamModel>) -> Seq<ParamModel>
    decreases shared.len(),
{
    if shared.len() == 0 {
        local
    } else {
        let m = merge_params(local, shared.drop_last());
        if names_of(m).contains(shared.last().name) {
            m
        } else {
            m.push(shared.last())
        }
    }
}

pub open spec fn is_success_code(c: Seq<char>) -> bool {
    c.len() > 0 && c[0] == '2'
}

/// The module path of the first 2xx response whose schema has a declared type.
pub open spec fn response_target(reg: Registry, defs: Seq<Schema>, sep: char, rs: Seq<(String, Response)>) -> Option<ModPath>
    decreases rs.len(),
{
    if rs.len() == 0 {
        None
    } else {
        let rest = response_target(reg, defs, sep, rs.drop_first());
        if is_success_code(rs[0].0@) && rs[0].1.schema is Some {
            match def_mod_segments(defs[rs[0].1.schema->Some_0 as int], sep) {
                Ok(k) => if has_key(reg, k) {
                    Some(k)
                } else {
                    rest
                },
                Err(_) => rest,
            }
        } else {
            rest
        }
    }
}

/// The registry with `req` attached to the type at module path `k`, if any.
pub open spec fn reg_attach(reg: Registry, k: ModPath, path: Seq<char>, meth: HttpMethod, req: ReqModel) -> Registry {
    if has_key(reg, k) {
        let i = key_index(reg, k);
        reg.update(i, (k, attach(reg[i].1, path, meth, req)))
    } else {
        reg
    }
}

/// Attaches an operation without a body to its first fitting response type.
pub open spec fn respond(reg: Registry, defs: Seq<Schema>, sep: char, path: Seq<char>, meth: HttpMethod, op: Operation, params: Seq<ParamModel>) -> Registry {
    match response_target(reg, defs, sep, op.responses@) {
        Some(k) => reg_attach(
            reg,
            k,
            path,
            meth,
            ReqModel { id: opt_string_view(op.operation_id), params, body_required: false },
        ),
        None => reg,
    }
}

/// The registry after the operation `op` bound to `meth`.
pub open spec fn method_step(reg: Registry, defs: Seq<Schema>, sep: char, path: Seq<char>, shared: Seq<ParamModel>, meth: HttpMethod, op: Operation) -> Result<Registry, ErrorModel> {
    match op.parameters {
        Some(lp) => match params_spec(reg, defs, sep, path, lp@) {
            Err(e) => Err(e),
            Ok(c) => {
                let merged = merge_params(c.0, shared);
                match c.1 {
                    Some(k) => Ok(
                        reg_attach(
                            reg,
                            k,
                            path,
                            meth,
                            ReqModel { id: opt_string_view(op.operation_id), params: merged, body_required: true },
                        ),
                    ),
                    None => Ok(respond(reg, defs, sep, path, meth, op, merged)),
                }
            },
        },
        None => Ok(respond(reg, defs, sep, path, meth, op, shared)),
    }
}

pub open spec fn methods_spec(reg: Registry, defs: Seq<Schema>, sep: char, path: Seq<char>, shared: Seq<ParamModel>, ms: Seq<(HttpMethod, Operation)>) -> Result<Registry, ErrorModel>
    decreases ms.len(),
{
    if ms.len() == 0 {
        Ok(reg)
    } else {
        match methods_spec(reg, defs, sep, path, shared, ms.drop_last()) {
            Err(e) => Err(e),
            Ok(r) => method_step(r, defs, sep, path, shared, ms.last().0, ms.last().1),
        }
    }
}

/// The registry after every operation under `path` is attached.
pub open spec fn path_spec(reg: Registry, defs: Seq<Schema>, sep: char, path: Seq<char>, map: OperationMap) -> Result<Registry, ErrorModel> {
    let shared = match map.parameters {
        Some(gp) => params_spec(reg, defs, sep, path, gp@),
        None => Ok((Seq::empty(), None)),
    };
    match shared {
        Err(e) => Err(e),
        Ok(sh) => methods_spec(reg, defs, sep, path, sh.0, map.methods@),
    }
}

/// The same types at the same module paths, with the same names, locations
/// and fields; only the requirements recorded under `path` may differ.
pub open spec fn only_path_changed(r0: Registry, r1: Registry, path: Seq<char>) -> bool {
    &&& r1.len() == r0.len()
    &&& forall|i: int|
        #![trigger r1[i]]
        0 <= i < r0.len() ==> {
            &&& r1[i].0 == r0[i].0
            &&& r1[i].1.name == r0[i].1.name
            &&& r1[i].1.path == r0[i].1.path
            &&& r1[i].1.fields == r0[i].1.fields
            &&& forall|q: Seq<char>| q != path ==> #[trigger] assoc_get(r1[i].1.paths, q) == assoc_get(r0[i].1.paths, q)
        }
}

pub open spec fn opt_segs_view(o: Option<Vec<String>>) -> Option<ModPath> {
    match o {
        Some(v) => Some(strings_view(v@)),
        None => None,
    }
}

pub proof fn lemma_params_err_extends(
    reg: Registry,
    defs: Seq<Schema>,
    sep: char,
    path: Seq<char>,
    ps: Seq<ApiParameter>,
    k: int,
)
    requires
        0 <= k <= ps.len(),
        params_spec(reg, defs, sep, path, ps.subrange(0, k)) is Err,
    ensures
        params_spec(reg, defs, sep, path, ps) == params_spec(reg, defs, sep, path, ps.subrange(0, k)),
    decreases ps.len() - k,
{
    if k < ps.len() {
        assert(ps.subrange(0, k + 1).drop_last() =~= ps.subrange(0, k));
        lemma_params_err_extends(reg, defs, sep, path, ps, k + 1);
    } else {
        assert(ps.subrange(0, k) =~= ps);
    }
}

impl CodegenEmitter {
    /// Validates the given parameters and collects a simplified version of
    /// them, with the module path of a body parameter's type.
    pub fn collect_parameters(&self, defs: &Vec<Schema>, path: &str, obj_params: &Vec<ApiParameter>) -> (r: Result<(Vec<Parameter>, Option<Vec<String>>), EmitError>)
        requires
            self.wf(),
            schemas_wf(defs@),
            params_wf(obj_params@, defs@.len() as int),
        ensures
            match params_spec(self.reg(), defs@, self.ns_sep, path@, obj_params@) {
                Ok(c) => r matches Ok(x) && params_view(x.0@) == c.0 && opt_segs_view(x.1) == c.1,
                Err(e) => r matches Err(x) && x@ == e,
            },
    {
        let mut schema_path: Option<Vec<String>> = None;
        let mut params: Vec<Parameter> = Vec::new();
        let mut i: usize = 0;
        assert(obj_params@.subrange(0, 0) =~= Seq::<ApiParameter>::empty());
        assert(params_view(params@) =~= Seq::<ParamModel>::empty());
        while i < obj_params.len()
            invariant
                self.wf(),
                schemas_wf(defs@),
                params_wf(obj_params@, defs@.len() as int),
                i <= obj_params@.len(),
                params_spec(self.reg(), defs@, self.ns_sep, path@, obj_params@.subrange(0, i as int))
                    == Ok::<(Seq<ParamModel>, Option<ModPath>), ErrorModel>(
                    (params_view(params@), opt_segs_view(schema_path)),
                ),
            decreases obj_params@.len() - i,
        {
            let p = &obj_params[i];
            proof {
                let t = obj_params@.subrange(0, i as int + 1);
                assert(t.drop_last() =~= obj_params@.subrange(0, i as int));
                assert(t.last() == obj_params@[i as int]);
            }
            let ghost acc = (params_view(params@), opt_segs_view(schema_path));
            let ghost step = param_step(self.reg(), defs@, self.ns_sep, path@, acc, *p);
            if let Some(c) = p.schema {
                assert(c < defs@.len());
                // A body parameter: its type must already be declared.
                let pat = match self.def_mod_path(&defs[c]) {
                    Ok(k) => k,
                    Err(e) => {
                        proof {
                            lemma_params_err_extends(self.reg(), defs@, self.ns_sep, path@, obj_params@, i as int + 1);
                        }
                        return Err(e);
                    },
                };
                if self.find_module(&pat).is_none() {
                    proof {
                        lemma_params_err_extends(self.reg(), defs@, self.ns_sep, path@, obj_params@, i as int + 1);
                    }
                    return Err(EmitError::UnsupportedParameterDefinition(p.name.clone(), String::from_str(path)));
                }
                schema_path = Some(pat);
            } else {
                // Enforce that the parameter is a known type and collect it.
                match matching_unit_type(p.format, p.data_type) {
                    Some(ty) => {
                        let ghost before = params@;
                        let np = Parameter { name: p.name.clone(), ty_path: String::from_str(ty), required: p.required };
                        params.push(np);
                        assert(params_view(params@) =~= params_view(before).push(np@));
                    },
                    None => {
                        proof {
                            lemma_params_err_extends(self.reg(), defs@, self.ns_sep, path@, obj_params@, i as int + 1);
                        }
                        return Err(EmitError::UnknownParameterType(p.name.clone(), String::from_str(path)));
                    },
                }
            }
            i = i + 1;
        }
        assert(obj_params@.subrange(0, i as int) =~= obj_params@);
        Ok((params, schema_path))
    }
}

pub proof fn lemma_methods_err_extends(
    reg: Registry,
    defs: Seq<Schema>,
    sep: char,
    path: Seq<char>,
    shared: Seq<ParamModel>,
    ms: Seq<(HttpMethod, Operation)>,
    k: int,
)
    requires
        0 <= k <= ms.len(),
        methods_spec(reg, defs, sep, path, shared, ms.subrange(0, k)) is Err,
    ensures
        methods_spec(reg, defs, sep, path, shared, ms) == methods_spec(reg, defs, sep, path, shared, ms.subrange(0, k)),
    decreases ms.len() - k,
{
    if k < ms.len() {
        assert(ms.subrange(0, k + 1).drop_last() =~= ms.subrange(0, k));
        lemma_methods_err_extends(reg, defs, sep, path, shared, ms, k + 1);
    } else {
        assert(ms.subrange(0, k) =~= ms);
    }
}

/// Whether some parameter of `ps` is named `name`.
pub fn name_taken(ps: &Vec<Parameter>, name: &str) -> (r: bool)
    ensures
        r == names_of(params_view(ps@)).contains(name@),
{
    let ghost names = names_of(params_view(ps@));
    let mut i: usize = 0;
    while i < ps.len()
        invariant
            i <= ps@.len(),
            names == names_of(params_view(ps@)),
            forall|j: int| 0 <= j < i ==> #[trigger] names[j] != name@,
        decreases ps@.len() - i,
    {
        if str_eq(ps[i].name.as_str(), name) {
            assert(names[i as int] == name@);
            return true;
        }
        i = i + 1;
    }
    assert(!names.contains(name@)) by {
        if names.contains(name@) {
            let j = choose|j: int| 0 <= j < names.len() && names[j] == name@;
            assert(names[j] != name@);
        }
    }
    false
}

/// Appends to `params` every shared parameter whose name is not yet taken.
pub fn merge_shared(params: &mut Vec<Parameter>, shared: &Vec<Parameter>)
    ensures
        params_view(final(params)@) == merge_params(params_view(old(params)@), params_view(shared@)),
{
    let ghost local = params_view(params@);
    let ghost sv = params_view(shared@);
    let mut i: usize = 0;
    assert(sv.subrange(0, 0) =~= Seq::<ParamModel>::empty());
    while i < shared.len()
        invariant
            i <= shared@.len(),
            sv == params_view(shared@),
            params_view(params@) == merge_params(local, sv.subrange(0, i as int)),
        decreases shared@.len() - i,
    {
        let g = &shared[i];
        proof {
            let t = sv.subrange(0, i as int + 1);
            assert(t.drop_last() =~= sv.subrange(0, i as int));
            assert(t.last() == g@);
        }
        if !name_taken(params, g.name.as_str()) {
            let ghost before = params@;
            let c = g.duplicate();
            params.push(c);
            assert(params_view(params@) =~= params_view(before).push(c@));
        }
        i = i + 1;
    }
    assert(sv.subrange(0, i as int) =~= sv);
}

/// A copy of a parameter list.
pub fn copy_params(ps: &Vec<Parameter>) -> (r: Vec<Parameter>)
    ensures
        params_view(r@) == params_view(ps@),
{
    let mut out: Vec<Parameter> = Vec::new();
    let mut i: usize = 0;
    while i < ps.len()
        invariant
            i <= ps@.len(),
            params_view(out@) =~= params_view(ps@).subrange(0, i as int),
        decreases ps@.len() - i,
    {
        let ghost before = out@;
        let c = ps[i].duplicate();
        out.push(c);
        assert(params_view(out@) =~= params_view(before).push(c@));
        i = i + 1;
    }
    assert(params_view(ps@).subrange(0, i as int) =~= params_view(ps@));
    out
}

fn copy_opt_string(o: &Option<String>) -> (r: Option<String>)
    ensures
        opt_string_view(r) == opt_string_view(*o),
{
    match o {
        Some(s) => Some(s.clone()),
        None => None,
    }
}

impl CodegenEmitter {
    /// Attaches `req` for `meth` under `path` to the type registered at index `i`.
    pub fn attach_at(&mut self, i: usize, path: &str, meth: HttpMethod, req: OpRequirement)
        requires
            old(self).wf(),
            i < old(self).reg().len(),
        ensures
            final(self).wf(),
            final(self).reg() == reg_attach(old(self).reg(), old(self).reg()[i as int].0, path@, meth, req@),
            only_path_changed(old(self).reg(), final(self).reg(), path@),
            final(self).children() == old(self).children(),
            final(self).ns_sep == old(self).ns_sep,
    {
        let ghost reg0 = self.reg();
        proof {
            lemma_key_index(reg0, i as int, reg0[i as int].0);
            lemma_attach_wf(reg0[i as int].1, path@, meth, req@);
        }
        let ghost before = self.def_mods@;
        let (key, mut obj) = self.def_mods.remove(i);
        obj.add_requirement(path, meth, req);
        self.def_mods.insert(i, (key, obj));
        assert(self.def_mods@ =~= before.update(i as int, (key, obj)));
        assert(self.reg() =~= reg_attach(reg0, reg0[i as int].0, path@, meth, req@));
        let ghost r = self.reg();
        assert forall|a: int, b: int| 0 <= a < r.len() && 0 <= b < r.len() && #[trigger] r[a].0 == #[trigger] r[b].0 implies a == b by {
            assert(reg0[a].0 == r[a].0 && reg0[b].0 == r[b].0);
        }
        assert forall|a: int| 0 <= a < r.len() implies crate::object::object_wf(#[trigger] r[a].1) by {
            if a != i {
                assert(r[a] == reg0[a]);
            }
        }
        let ghost o = reg0[i as int].1;
        let ghost ops = match assoc_get(o.paths, path@) {
            Some(ops) => ops,
            None => Seq::empty(),
        };
        assert forall|q: Seq<char>| q != path@ implies #[trigger] assoc_get(r[i as int].1.paths, q) == assoc_get(o.paths, q) by {
            crate::assoc::lemma_insert_other(o.paths, path@, crate::assoc::assoc_insert(ops, meth, req@), q);
        }
        assert forall|a: int| 0 <= a < reg0.len() implies #[trigger] r[a].0 == reg0[a].0 by {}
    }

    /// Index of the type of the first 2xx response whose schema has one.
    pub fn find_response_target(&self, defs: &Vec<Schema>, op: &Operation) -> (r: Option<usize>)
        requires
            self.wf(),
            schemas_wf(defs@),
            operation_wf(*op, defs@.len() as int),
        ensures
            match response_target(self.reg(), defs@, self.ns_sep, op.responses@) {
                Some(k) => r matches Some(i) && i < self.reg().len() && self.reg()[i as int].0 == k,
                None => r is None,
            },
    {
        let rs = &op.responses;
        let ghost all = rs@;
        let mut i: usize = 0;
        assert(all.subrange(0, all.len() as int) =~= all);
        while i < rs.len()
            invariant
                self.wf(),
                schemas_wf(defs@),
                operation_wf(*op, defs@.len() as int),
                all == rs@,
                all == op.responses@,
                i <= all.len(),
                response_target(self.reg(), defs@, self.ns_sep, all) == response_target(
                    self.reg(),
                    defs@,
                    self.ns_sep,
                    all.subrange(i as int, all.len() as int),
                ),
            decreases all.len() - i,
        {
            let code = &rs[i].0;
            let resp = &rs[i].1;
            let ghost t = all.subrange(i as int, all.len() as int);
            assert(*code == all[i as int].0 && *resp == all[i as int].1);
            assert(op.responses@[i as int].1.schema == resp.schema);
            assert(t.drop_first() =~= all.subrange(i as int + 1, all.len() as int));
            assert(t[0] == all[i as int]);
            let s = code.as_str();
            let success = s.unicode_len() > 0 && s.get_char(0) == '2';
            assert(success == is_success_code(t[0].0@));
            if success {
                if let Some(c) = resp.schema {
                    assert(c < defs@.len());
                    match self.def_mod_path(&defs[c]) {
                        Ok(k) => {
                            match self.find_module(&k) {
                                Some(j) => {
                                    proof {
                                        lemma_key_index(self.reg(), j as int, strings_view(k@));
                                    }
                                    return Some(j);
                                },
                                None => {},
                            }
                        },
                        Err(_) => {},
                    }
                }
            }
            i = i + 1;
        }
        None
    }

    /// Collects, for every operation under `path`, what its builder needs, and
    /// attaches it to the type it sends as a body or else receives in its
    /// first fitting 2xx response.
    pub fn collect_requirements_for_path(&mut self, defs: &Vec<Schema>, path: &str, map: &OperationMap) -> (r: Result<(), EmitError>)
        requires
            old(self).wf(),
            schemas_wf(defs@),
            operation_map_wf(*map, defs@.len() as int),
        ensures
            final(self).wf(),
            final(self).children() == old(self).children(),
            final(self).ns_sep == old(self).ns_sep,
            only_path_changed(old(self).reg(), final(self).reg(), path@),
            map.parameters is Some && params_spec(old(self).reg(), defs@, old(self).ns_sep, path@, map.parameters->Some_0@) is Err
                ==> final(self).reg() == old(self).reg(),
            match path_spec(old(self).reg(), defs@, old(self).ns_sep, path@, *map) {
                Ok(rg) => r is Ok && final(self).reg() == rg,
                Err(e) => r matches Err(x) && x@ == e,
            },
    {
        let ghost reg0 = self.reg();
        let mut unused_params: Vec<Parameter> = Vec::new();
        // Collect the parameters shared by all operations of the path.
        if let Some(global_params) = &map.parameters {
            match self.collect_parameters(defs, path, global_params) {
                Ok((params, _)) => {
                    unused_params = params;
                },
                Err(e) => return Err(e),
            }
        } else {
            assert(params_view(unused_params@) =~= Seq::<ParamModel>::empty());
        }
        let ghost sh = params_view(unused_params@);
        let ghost ms = map.methods@;
        assert(ms.subrange(0, 0) =~= Seq::<(HttpMethod, Operation)>::empty());
        let mut m: usize = 0;
        while m < map.methods.len()
            invariant
                self.wf(),
                schemas_wf(defs@),
                operation_map_wf(*map, defs@.len() as int),
                ms == map.methods@,
                reg0 == old(self).reg(),
                only_path_changed(reg0, self.reg(), path@),
                map.parameters is Some ==> params_spec(reg0, defs@, self.ns_sep, path@, map.parameters->Some_0@) is Ok,
                m <= ms.len(),
                sh == params_view(unused_params@),
                self.children() == old(self).children(),
                self.ns_sep == old(self).ns_sep,
                path_spec(reg0, defs@, self.ns_sep, path@, *map) == methods_spec(reg0, defs@, self.ns_sep, path@, sh, ms),
                methods_spec(reg0, defs@, self.ns_sep, path@, sh, ms.subrange(0, m as int)) == Ok::<Registry, ErrorModel>(self.reg()),
            decreases ms.len() - m,
        {
            let meth = map.methods[m].0;
            let op = &map.methods[m].1;
            proof {
                let t = ms.subrange(0, m as int + 1);
                assert(t.drop_last() =~= ms.subrange(0, m as int));
                assert(t.last() == ms[m as int]);
                assert(operation_wf(ms[m as int].1, defs@.len() as int));
            }
            let ghost cur = self.reg();
            assert(meth == ms[m as int].0 && *op == ms[m as int].1);
            assert(methods_spec(reg0, defs@, self.ns_sep, path@, sh, ms.subrange(0, m as int + 1)) == method_step(cur, defs@, self.ns_sep, path@, sh, meth, *op));
            let mut op_addressed = false;
            let mut unused_local_params: Vec<Parameter> = Vec::new();
            if let Some(local_params) = &op.parameters {
                let (mut params, schema_path) = match self.collect_parameters(defs, path, local_params) {
                    Ok(c) => c,
                    Err(e) => {
                        proof {
                            assert(op.parameters == Some(*local_params));
                            assert(method_step(cur, defs@, self.ns_sep, path@, sh, meth, *op) == Err::<Registry, ErrorModel>(e@));
                            lemma_methods_err_extends(reg0, defs@, self.ns_sep, path@, sh, ms, m as int + 1);
                            assert(methods_spec(reg0, defs@, self.ns_sep, path@, sh, ms) == Err::<Registry, ErrorModel>(e@));
                            assert(path_spec(reg0, defs@, self.ns_sep, path@, *map) == Err::<Registry, ErrorModel>(e@));
                        }
                        return Err(e);
                    },
                };
                // Local parameters take precedence over shared ones of the same name.
                merge_shared(&mut params, &unused_params);
                if let Some(pat) = schema_path {
                    op_addressed = true;
                    match self.find_module(&pat) {
                        Some(i) => {
                            let req = OpRequirement { id: copy_opt_string(&op.operation_id), params, body_required: true };
                            self.attach_at(i, path, meth, req);
                        },
                        None => {},
                    }
                } else {
                    unused_local_params = params;
                }
            } else {
                unused_local_params = copy_params(&unused_params);
            }
            if !op_addressed {
                // Not sent as a body: attach it to a response type, if any.
                match self.find_response_target(defs, op) {
                    Some(i) => {
                        let req = OpRequirement {
                            id: copy_opt_string(&op.operation_id),
                            params: unused_local_params,
                            body_required: false,
                        };
                        proof {
                            lemma_key_index(self.reg(), i as int, self.reg()[i as int].0);
                        }
                        self.attach_at(i, path, meth, req);
                    },
                    None => {},
                }
            }
            assert(self.reg() == method_step(cur, defs@, self.ns_sep, path@, sh, meth, *op)->Ok_0);
            m = m + 1;
        }
        assert(ms.subrange(0, m as int) =~= ms);
        Ok(())
    }
}

} // verus!
