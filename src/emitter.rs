use vstd::prelude::*;
use crate::error::{EmitError, ErrorModel};
use crate::model::{requires_property, schemas_wf, Schema};
use crate::naming::{
    field_ident, field_name_of, field_rename, namespace_segments, ns_segments, reference_path,
    reference_path_of, strings_view, type_name_from, type_name_of,
};
use crate::assoc::assoc_insert;
use crate::model::HttpMethod;
use crate::naming::{drop_empty_segments, module_path_of, module_path_string, nonempty_segments};
use crate::object::ReqModel;
use crate::state::{copy_strings, CodegenEmitter, ModPath};
use crate::object::{fields_view, ApiObject, FieldModel, ObjectField, ObjectModel};
use crate::types::{matching_unit_type, unit_type, DataType};

verus! {

/// Some "thing" emitted by the emitter.
pub enum EmittedUnit {
    /// Object represented as a Rust struct.
    Object(ApiObject),
    /// Some Rust type.
    Known(String),
    /// Nothing to do.
    Nothing,
}

pub enum UnitModel {
    Object(ObjectModel),
    Known(Seq<char>),
    Nothing,
}

impl View for EmittedUnit {
    type V = UnitModel;

    open spec fn view(&self) -> UnitModel {
        match self {
            EmittedUnit::Object(o) => UnitModel::Object(o@),
            EmittedUnit::Known(s) => UnitModel::Known(s@),
            EmittedUnit::Nothing => UnitModel::Nothing,
        }
    }
}

impl EmittedUnit {
    /// The type of a unit that names a known type.
    pub fn known_type(self) -> (r: String)
        requires
            self is Known,
        ensures
            self@ == UnitModel::Known(r@),
    {
        match self {
            EmittedUnit::Known(s) => s,
            _ => String::new(),
        }
    }
}

pub open spec fn result_view<T: View>(r: Result<T, EmitError>) -> Result<T::V, ErrorModel> {
    match r {
        Ok(x) => Ok(x@),
        Err(e) => Err(e@),
    }
}

pub open spec fn segs_result_view(r: Result<Vec<String>, EmitError>) -> Result<Seq<Seq<char>>, ErrorModel> {
    match r {
        Ok(v) => Ok(strings_view(v@)),
        Err(e) => Err(e@),
    }
}

/// The snake-cased namespace segments of a definition, which must be named.
pub open spec fn def_segments(d: Schema, sep: char) -> Result<Seq<Seq<char>>, ErrorModel> {
    match d.name {
        Some(n) => Ok(ns_segments(n@, sep)),
        None => Err(ErrorModel::InvalidDefinitionName),
    }
}

/// The module path of a definition: its namespace segments without the
/// empty ones.
pub open spec fn def_mod_segments(d: Schema, sep: char) -> Result<Seq<Seq<char>>, ErrorModel> {
    match def_segments(d, sep) {
        Ok(segs) => Ok(nonempty_segments(segs)),
        Err(e) => Err(e),
    }
}

/// The type identifier of a definition, if it is named.
pub open spec fn def_name_of(d: Schema, sep: char) -> Option<Seq<char>> {
    match d.name {
        Some(n) => Some(type_name_of(n@, sep)),
        None => None,
    }
}

/// An object schema that is a pure map from text keys to one value schema.
pub open spec fn is_map(d: Schema) -> bool {
    d.additional_properties is Some && d.properties is None
}

/// The type written where the schema `id` is used. Each array or map level
/// entered spends one unit of `budget`.
pub open spec fn use_type(defs: Seq<Schema>, sep: char, id: int, budget: nat) -> Result<Seq<char>, ErrorModel>
    decreases budget,
{
    let d = defs[id];
    match unit_type(d.format, d.data_type) {
        Some(t) => Ok(t),
        None => match d.data_type {
            Some(DataType::Array) => match d.items {
                None => Err(ErrorModel::MissingArrayItem(def_name_of(d, sep))),
                Some(c) => if budget == 0 {
                    Err(ErrorModel::RecursiveContainer(def_name_of(d, sep)))
                } else {
                    match use_type(defs, sep, c as int, (budget - 1) as nat) {
                        Ok(t) => Ok("Vec<"@ + t + ">"@),
                        Err(e) => Err(e),
                    }
                },
            },
            Some(DataType::Object) => if is_map(d) {
                if budget == 0 {
                    Err(ErrorModel::RecursiveContainer(def_name_of(d, sep)))
                } else {
                    match use_type(defs, sep, d.additional_properties->Some_0 as int, (budget - 1) as nat) {
                        Ok(t) => Ok("std::collections::BTreeMap<String, "@ + t + ">"@),
                        Err(e) => Err(e),
                    }
                }
            } else {
                match def_segments(d, sep) {
                    Ok(segs) => Ok(reference_path_of(segs)),
                    Err(e) => Err(e),
                }
            },
            _ => Ok("String"@),
        },
    }
}

/// The field declared for property `wire` of `owner`, whose schema is `c`.
pub open spec fn field_of(defs: Seq<Schema>, sep: char, owner: Schema, wire: Seq<char>, c: int) -> Result<FieldModel, ErrorModel> {
    match use_type(defs, sep, c, defs.len() as nat) {
        Ok(t) => Ok(
            FieldModel {
                name: field_ident(wire),
                rename: field_rename(wire),
                ty_path: t,
                is_required: requires_property(owner, wire),
                boxed: defs[c].cyclic,
            },
        ),
        Err(e) => Err(e),
    }
}

/// The fields declared for the given properties, in order; the first error wins.
pub open spec fn fields_of(defs: Seq<Schema>, sep: char, owner: Schema, props: Seq<(String, usize)>) -> Result<Seq<FieldModel>, ErrorModel>
    decreases props.len(),
{
    if props.len() == 0 {
        Ok(Seq::empty())
    } else {
        match fields_of(defs, sep, owner, props.drop_last()) {
            Err(e) => Err(e),
            Ok(fs) => match field_of(defs, sep, owner, props.last().0@, props.last().1 as int) {
                Ok(f) => Ok(fs.push(f)),
                Err(e) => Err(e),
            },
        }
    }
}

/// The struct declared for the object schema `id`.
pub open spec fn struct_of(defs: Seq<Schema>, sep: char, id: int) -> Result<ObjectModel, ErrorModel> {
    let d = defs[id];
    match def_name_of(d, sep) {
        None => Err(ErrorModel::InvalidDefinitionName),
        Some(n) => {
            let fs = match d.properties {
                Some(ps) => fields_of(defs, sep, d, ps@),
                None => Ok(Seq::empty()),
            };
            match fs {
                Ok(fs) => Ok(ObjectModel { name: n, path: Seq::empty(), fields: fs, paths: Seq::empty() }),
                Err(e) => Err(e),
            }
        },
    }
}

/// The type that the schema `id` needs declared, if any: only object schemas
/// that are not pure maps get one. An array without an item schema is a
/// defect in either mode.
pub open spec fn declared(defs: Seq<Schema>, sep: char, id: int) -> Result<Option<ObjectModel>, ErrorModel> {
    let d = defs[id];
    if unit_type(d.format, d.data_type) is None && d.data_type == Some(DataType::Array) && d.items is None {
        Err(ErrorModel::MissingArrayItem(def_name_of(d, sep)))
    } else if unit_type(d.format, d.data_type) is None && d.data_type == Some(DataType::Object) && !is_map(d) {
        match struct_of(defs, sep, id) {
            Ok(o) => Ok(Some(o)),
            Err(e) => Err(e),
        }
    } else {
        Ok(None)
    }
}

/// What building schema `id` yields: in declare mode the declared type (or
/// nothing), in use mode the type to write.
pub open spec fn build_spec(defs: Seq<Schema>, sep: char, id: int, define: bool, budget: nat) -> Result<UnitModel, ErrorModel> {
    if define {
        match declared(defs, sep, id) {
            Ok(Some(o)) => Ok(UnitModel::Object(o)),
            Ok(None) => Ok(UnitModel::Nothing),
            Err(e) => Err(e),
        }
    } else {
        match use_type(defs, sep, id, budget) {
            Ok(t) => Ok(UnitModel::Known(t)),
            Err(e) => Err(e),
        }
    }
}

/// A failure on a prefix of the properties is the failure of all of them.
pub proof fn lemma_fields_of_err_extends(
    defs: Seq<Schema>,
    sep: char,
    owner: Schema,
    props: Seq<(String, usize)>,
    k: int,
)
    requires
        0 <= k <= props.len(),
        fields_of(defs, sep, owner, props.subrange(0, k)) is Err,
    ensures
        fields_of(defs, sep, owner, props) == fields_of(defs, sep, owner, props.subrange(0, k)),
    decreases props.len() - k,
{
    if k < props.len() {
        let t = props.subrange(0, k + 1);
        assert(t.drop_last() =~= props.subrange(0, k));
        lemma_fields_of_err_extends(defs, sep, owner, props, k + 1);
    } else {
        assert(props.subrange(0, k) =~= props);
    }
}

/// The (parent, child) module relations of the first `k` ancestors of a
/// module path, leaving out the top-level modules, whose parent is the
/// working root.
pub open spec fn child_pairs_upto(segs: ModPath, k: int) -> Set<(ModPath, Seq<char>)> {
    Set::new(
        |p: (ModPath, Seq<char>)|
            exists|j: int| 1 <= j < k && p == (segs.subrange(0, j), #[trigger] segs[j]),
    )
}

/// Every (parent, child) module relation along a module path.
pub open spec fn child_pairs(segs: ModPath) -> Set<(ModPath, Seq<char>)> {
    child_pairs_upto(segs, segs.len() as int)
}

/// The registry and module relations after declaring definition `id`:
/// nothing changes unless it needs a declared type, which is stored at its
/// module path with that path (joined by `::`) recorded in it. Empty
/// namespace segments are skipped; a name with no other segment has no
/// module file.
pub open spec fn declare_root(
    reg: Seq<(ModPath, ObjectModel)>,
    children: Set<(ModPath, Seq<char>)>,
    defs: Seq<Schema>,
    sep: char,
    id: int,
) -> Result<(Seq<(ModPath, ObjectModel)>, Set<(ModPath, Seq<char>)>), ErrorModel> {
    match declared(defs, sep, id) {
        Err(e) => Err(e),
        Ok(None) => Ok((reg, children)),
        Ok(Some(o)) => match def_segments(defs[id], sep) {
            Err(e) => Err(e),
            Ok(raw) => if nonempty_segments(raw).len() == 0 {
                Err(ErrorModel::InvalidDefinitionPath(module_path_of(raw)))
            } else {
                let segs = nonempty_segments(raw);
                Ok(
                    (
                        assoc_insert(reg, segs, ObjectModel { path: module_path_of(segs), ..o }),
                        children.union(child_pairs(segs)),
                    ),
                )
            }
        },
    }
}

pub open spec fn mode_rank(define: bool) -> int {
    if define {
        1
    } else {
        0
    }
}

impl CodegenEmitter {
    /// Returns the snake-cased namespace segments of the given definition.
    pub fn def_ns_name(&self, def: &Schema) -> (r: Result<Vec<String>, EmitError>)
        ensures
            segs_result_view(r) == def_segments(*def, self.ns_sep),
            r matches Ok(v) ==> v@.len() >= 1,
    {
        match &def.name {
            Some(n) => Ok(namespace_segments(n.as_str(), self.ns_sep)),
            None => Err(EmitError::InvalidDefinitionName),
        }
    }

    /// Returns the camel-cased type name of the given definition.
    pub fn def_name(&self, def: &Schema) -> (r: Result<String, EmitError>)
        ensures
            match r {
                Ok(s) => def_name_of(*def, self.ns_sep) == Some(s@),
                Err(e) => def_name_of(*def, self.ns_sep) is None && e@ == ErrorModel::InvalidDefinitionName,
            },
    {
        match self.def_ns_name(def) {
            Ok(segs) => Ok(type_name_from(&segs)),
            Err(e) => Err(e),
        }
    }

    /// Returns the module path (relative to the working root) of the given definition.
    pub fn def_mod_path(&self, def: &Schema) -> (r: Result<Vec<String>, EmitError>)
        ensures
            segs_result_view(r) == def_mod_segments(*def, self.ns_sep),
    {
        match self.def_ns_name(def) {
            Ok(segs) => Ok(drop_empty_segments(&segs)),
            Err(e) => Err(e),
        }
    }

    fn def_name_opt(&self, def: &Schema) -> (r: Option<String>)
        ensures
            crate::naming::opt_string_view(r) == def_name_of(*def, self.ns_sep),
    {
        match self.def_name(def) {
            Ok(s) => Some(s),
            Err(_) => None,
        }
    }

    /// Builds the given definition, either to declare a type for it
    /// (`define`) or to refer to it.
    pub fn build_def(&self, defs: &Vec<Schema>, id: usize, define: bool, budget: usize) -> (r: Result<EmittedUnit, EmitError>)
        requires
            schemas_wf(defs@),
            id < defs@.len(),
        ensures
            result_view(r) == build_spec(defs@, self.ns_sep, id as int, define, budget as nat),
        decreases mode_rank(define), budget, 3int,
    {
        let def = &defs[id];
        if let Some(ty) = matching_unit_type(def.format, def.data_type) {
            if define {
                return Ok(EmittedUnit::Nothing);
            }
            return Ok(EmittedUnit::Known(String::from_str(ty)));
        }
        match def.data_type {
            Some(DataType::Array) => self.emit_array(defs, id, define, budget),
            Some(DataType::Object) => self.emit_object(defs, id, define, budget),
            _ => {
                if define {
                    Ok(EmittedUnit::Nothing)
                } else {
                    proof {
                        reveal_strlit("String");
                    }
                    Ok(EmittedUnit::Known(String::from_str("String")))
                }
            },
        }
    }

    /// Returns the vector type for an array definition; arrays are never declared.
    pub fn emit_array(&self, defs: &Vec<Schema>, id: usize, define: bool, budget: usize) -> (r: Result<EmittedUnit, EmitError>)
        requires
            schemas_wf(defs@),
            id < defs@.len(),
            defs@[id as int].data_type == Some(DataType::Array),
            unit_type(defs@[id as int].format, defs@[id as int].data_type) is None,
        ensures
            result_view(r) == build_spec(defs@, self.ns_sep, id as int, define, budget as nat),
        decreases mode_rank(define), budget, 2int,
    {
        let def = &defs[id];
        match def.items {
            None => Err(EmitError::MissingArrayItem(self.def_name_opt(def))),
            Some(c) => {
                if define {
                    return Ok(EmittedUnit::Nothing);
                }
                if budget == 0 {
                    return Err(EmitError::RecursiveContainer(self.def_name_opt(def)));
                }
                match self.build_def(defs, c, false, budget - 1) {
                    Ok(u) => {
                        let ty = u.known_type();
                        proof {
                            reveal_strlit("Vec<");
                            reveal_strlit(">");
                        }
                        let mut s = String::from_str("Vec<");
                        s.append(ty.as_str());
                        s.append(">");
                        Ok(EmittedUnit::Known(s))
                    },
                    Err(e) => Err(e),
                }
            },
        }
    }

    /// Returns the map type, the type reference or the struct declaration for
    /// an object definition.
    pub fn emit_object(&self, defs: &Vec<Schema>, id: usize, define: bool, budget: usize) -> (r: Result<EmittedUnit, EmitError>)
        requires
            schemas_wf(defs@),
            id < defs@.len(),
            defs@[id as int].data_type == Some(DataType::Object),
            unit_type(defs@[id as int].format, defs@[id as int].data_type) is None,
        ensures
            result_view(r) == build_spec(defs@, self.ns_sep, id as int, define, budget as nat),
        decreases mode_rank(define), budget, 2int,
    {
        match self.try_emit_map(defs, id, define, budget) {
            Ok(EmittedUnit::Nothing) => {},
            x => return x,
        }
        let def = &defs[id];
        if !define {
            // Use absolute paths, rooted at the crate.
            return match self.def_ns_name(def) {
                Ok(segs) => Ok(EmittedUnit::Known(reference_path(&segs))),
                Err(e) => Err(e),
            };
        }
        if def.additional_properties.is_some() && def.properties.is_none() {
            return Ok(EmittedUnit::Nothing);
        }
        self.emit_struct(defs, id)
    }

    /// Returns the map type for a pure map definition in use mode, and
    /// nothing otherwise.
    pub fn try_emit_map(&self, defs: &Vec<Schema>, id: usize, define: bool, budget: usize) -> (r: Result<EmittedUnit, EmitError>)
        requires
            schemas_wf(defs@),
            id < defs@.len(),
            defs@[id as int].data_type == Some(DataType::Object),
            unit_type(defs@[id as int].format, defs@[id as int].data_type) is None,
        ensures
            !define && is_map(defs@[id as int]) ==> result_view(r) == build_spec(
                defs@,
                self.ns_sep,
                id as int,
                define,
                budget as nat,
            ),
            define || !is_map(defs@[id as int]) ==> r matches Ok(EmittedUnit::Nothing),
        decreases mode_rank(define), budget, 1int,
    {
        if define {
            return Ok(EmittedUnit::Nothing);
        }
        let def = &defs[id];
        if def.properties.is_some() {
            return Ok(EmittedUnit::Nothing);
        }
        match def.additional_properties {
            Some(c) => {
                if budget == 0 {
                    return Err(EmitError::RecursiveContainer(self.def_name_opt(def)));
                }
                match self.build_def(defs, c, false, budget - 1) {
                    Ok(u) => {
                        let ty = u.known_type();
                        proof {
                            reveal_strlit("std::collections::BTreeMap<String, ");
                            reveal_strlit(">");
                        }
                        let mut s = String::from_str("std::collections::BTreeMap<String, ");
                        s.append(ty.as_str());
                        s.append(">");
                        Ok(EmittedUnit::Known(s))
                    },
                    Err(e) => Err(e),
                }
            },
            None => Ok(EmittedUnit::Nothing),
        }
    }

    /// Returns the struct declaration for an object definition.
    pub fn emit_struct(&self, defs: &Vec<Schema>, id: usize) -> (r: Result<EmittedUnit, EmitError>)
        requires
            schemas_wf(defs@),
            id < defs@.len(),
        ensures
            result_view(r) == match struct_of(defs@, self.ns_sep, id as int) {
                Ok(o) => Ok(UnitModel::Object(o)),
                Err(e) => Err(e),
            },
        decreases 1int, 0int, 0int,
    {
        let def = &defs[id];
        let name = match self.def_name(def) {
            Ok(n) => n,
            Err(e) => return Err(e),
        };
        let mut obj = ApiObject::with_name(name);
        if let Some(props) = &def.properties {
            let ghost d = defs@[id as int];
            let mut i: usize = 0;
            while i < props.len()
                invariant
                    schemas_wf(defs@),
                    id < defs@.len(),
                    d == defs@[id as int],
                    *def == d,
                    d.properties == Some(*props),
                    i <= props@.len(),
                    fields_of(defs@, self.ns_sep, d, props@.subrange(0, i as int)) == Ok::<
                        Seq<FieldModel>,
                        ErrorModel,
                    >(fields_view(obj.fields@)),
                    def_name_of(d, self.ns_sep) is Some,
                    obj@.name == def_name_of(d, self.ns_sep)->Some_0,
                    obj@.path == Seq::<char>::empty(),
                    obj@.paths.len() == 0,
                decreases props@.len() - i,
            {
                let (wire, c) = (&props[i].0, props[i].1);
                proof {
                    let t = props@.subrange(0, i as int + 1);
                    assert(t.drop_last() =~= props@.subrange(0, i as int));
                    assert(t.last() == props@[i as int]);
                    assert(props@[i as int].1 < defs@.len());
                }
                let (new_name, rename) = field_name_of(wire.as_str());
                let ty = match self.build_def(defs, c, false, defs.len()) {
                    Ok(u) => u.known_type(),
                    Err(e) => {
                        proof {
                            assert(field_of(defs@, self.ns_sep, d, wire@, c as int) == Err::<FieldModel, ErrorModel>(e@));
                            assert(fields_of(defs@, self.ns_sep, d, props@.subrange(0, i as int + 1)) == Err::<Seq<FieldModel>, ErrorModel>(e@));
                            lemma_fields_of_err_extends(defs@, self.ns_sep, d, props@, i as int + 1);
                        }
                        return Err(e);
                    },
                };
                let field = ObjectField {
                    name: new_name,
                    rename,
                    ty_path: ty,
                    is_required: def.is_required_property(wire.as_str()),
                    boxed: defs[c].is_cyclic(),
                };
                assert(Ok::<FieldModel, ErrorModel>(field@) == field_of(defs@, self.ns_sep, d, wire@, c as int));
                let ghost before = obj.fields@;
                obj.fields.push(field);
                assert(fields_view(obj.fields@) =~= fields_view(before).push(field@));
                i = i + 1;
            }
            assert(props@.subrange(0, i as int) =~= props@);
            assert(obj@.paths =~= Seq::empty());
        } else {
            assert(fields_view(obj.fields@) =~= Seq::<FieldModel>::empty());
        }
        assert(obj@ == struct_of(defs@, self.ns_sep, id as int)->Ok_0);
        Ok(EmittedUnit::Object(obj))
    }
    /// Declares the type that the given root definition needs, if any, and
    /// records its module location.
    #[verifier::loop_isolation(false)]
    pub fn generate_def_from_root(&mut self, defs: &Vec<Schema>, id: usize) -> (r: Result<(), EmitError>)
        requires
            old(self).wf(),
            schemas_wf(defs@),
            id < defs@.len(),
        ensures
            final(self).wf(),
            final(self).ns_sep == old(self).ns_sep,
            match declare_root(old(self).reg(), old(self).children(), defs@, old(self).ns_sep, id as int) {
                Ok(st) => r is Ok && final(self).reg() == st.0 && final(self).children() == st.1,
                Err(e) => r matches Err(x) && x@ == e && final(self).reg() == old(self).reg()
                    && final(self).children() == old(self).children(),
            },
    {
        let mut object = match self.build_def(defs, id, true, defs.len()) {
            Ok(EmittedUnit::Object(o)) => o,
            Ok(_) => return Ok(()),
            Err(e) => return Err(e),
        };
        let raw = match self.def_ns_name(&defs[id]) {
            Ok(s) => s,
            Err(e) => return Err(e),
        };
        let segs = drop_empty_segments(&raw);
        if segs.len() == 0 {
            return Err(EmitError::InvalidDefinitionPath(module_path_string(&raw)));
        }
        let ghost sv = strings_view(segs@);
        let mut k: usize = 1;
        // Gather the immediate parent-child pairs for module declarations.
        let ghost old_children = self.children();
        let mut prefix: Vec<String> = Vec::new();
        prefix.push(segs[0].clone());
        assert(strings_view(prefix@) =~= sv.subrange(0, 1));
        assert(child_pairs_upto(sv, 1) =~= Set::<(ModPath, Seq<char>)>::empty());
        assert(old_children.union(child_pairs_upto(sv, 1)) =~= old_children);
        while k < segs.len()
            invariant
                1 <= k <= segs@.len(),
                sv == strings_view(segs@),
                strings_view(prefix@) == sv.subrange(0, k as int),
                self.children() == old_children.union(child_pairs_upto(sv, k as int)),
                self.reg() == old(self).reg(),
                self.ns_sep == old(self).ns_sep,
                self.wf(),
            decreases segs@.len() - k,
        {
            let parent = copy_strings(&prefix);
            self.add_child(parent, segs[k].clone());
            let ghost pair = (sv.subrange(0, k as int), sv[k as int]);
            assert(child_pairs_upto(sv, k as int + 1) =~= child_pairs_upto(sv, k as int).insert(pair)) by {
                assert forall|p: (ModPath, Seq<char>)| #[trigger] child_pairs_upto(sv, k as int + 1).contains(p)
                    implies child_pairs_upto(sv, k as int).insert(pair).contains(p) by {
                    let j = choose|j: int| 1 <= j < k + 1 && p == (sv.subrange(0, j), #[trigger] sv[j]);
                    if j < k {
                        assert(child_pairs_upto(sv, k as int).contains(p));
                    }
                }
                assert forall|p: (ModPath, Seq<char>)| #[trigger] child_pairs_upto(sv, k as int).insert(pair).contains(p)
                    implies child_pairs_upto(sv, k as int + 1).contains(p) by {
                    if p == pair {
                        assert(1 <= k < k + 1 && p == (sv.subrange(0, k as int), sv[k as int]));
                    } else {
                        let j = choose|j: int| 1 <= j < k && p == (sv.subrange(0, j), #[trigger] sv[j]);
                        assert(1 <= j < k + 1 && p == (sv.subrange(0, j), sv[j]));
                    }
                }
            }
            assert(self.children() =~= old_children.union(child_pairs_upto(sv, k as int + 1)));
            let ghost before = prefix@;
            let seg = segs[k].clone();
            prefix.push(seg);
            assert(strings_view(prefix@) =~= strings_view(before).push(seg@));
            assert(sv.subrange(0, k as int + 1) =~= sv.subrange(0, k as int).push(sv[k as int]));
            k = k + 1;
        }
        object.path = module_path_string(&segs);
        assert(object@.paths =~= Seq::<(Seq<char>, Seq<(HttpMethod, ReqModel)>)>::empty());
        self.register(segs, object);
        Ok(())
    }
}

} // verus!
