use vstd::prelude::*;
use crate::assoc::{assoc_get, has_key, key_index, keys_unique, lemma_insert_unique};
use crate::collector::{
    merge_params, method_step, names_of, params_spec, reg_attach, response_target, Registry,
};
use crate::emitter::{child_pairs, declare_root, is_map, use_type, declared, def_mod_segments, def_segments, field_of, fields_of};
use crate::error::ErrorModel;
use crate::model::{schemas_wf, HttpMethod, Operation, Schema};
use vstd::set_lib::{lemma_int_range, lemma_len_subset, set_int_range};
use crate::naming::{field_ident, field_rename, is_reserved, module_path_of, nonempty_segments, snake_case_of};
use crate::object::{attach, object_wf, FieldModel, ObjectModel, ParamModel, ReqModel};
use crate::pipeline::{declare_all, Children};
use crate::state::registry_wf;
use crate::types::{unit_type, DataType, DataTypeFormat};

verus! {

/// A numeric format decides the scalar type whatever the kind; without one,
/// integer, number, boolean and string map to `i64`, `f64`, `bool` and
/// `String`, and arrays, objects and untyped nodes map to nothing.
pub proof fn lemma_unit_type_table(f: Option<DataTypeFormat>, t1: Option<DataType>, t2: Option<DataType>)
    ensures
        (f == Some(DataTypeFormat::Int32) || f == Some(DataTypeFormat::Int64) || f == Some(
            DataTypeFormat::Float,
        ) || f == Some(DataTypeFormat::Double)) ==> unit_type(f, t1) == unit_type(f, t2)
            && unit_type(f, t1) is Some,
        f == Some(DataTypeFormat::Int32) ==> unit_type(f, t1) == Some("i32"@),
        f == Some(DataTypeFormat::Int64) ==> unit_type(f, t1) == Some("i64"@),
        f == Some(DataTypeFormat::Float) ==> unit_type(f, t1) == Some("f32"@),
        f == Some(DataTypeFormat::Double) ==> unit_type(f, t1) == Some("f64"@),
        f is None ==> unit_type(f, Some(DataType::Integer)) == Some("i64"@),
        f is None ==> unit_type(f, Some(DataType::Number)) == Some("f64"@),
        f is None ==> unit_type(f, Some(DataType::Boolean)) == Some("bool"@),
        f is None ==> unit_type(f, Some(DataType::String)) == Some("String"@),
        (f is None || f == Some(DataTypeFormat::Date) || f == Some(DataTypeFormat::DateTime) || f
            == Some(DataTypeFormat::Byte) || f == Some(DataTypeFormat::Binary) || f == Some(
            DataTypeFormat::Password,
        )) && (t1 is None || t1 == Some(DataType::Array) || t1 == Some(DataType::Object))
            ==> unit_type(f, t1) is None,
{
}

/// The fields declared for a list of properties correspond to them one by one.
pub proof fn lemma_fields_of_index(defs: Seq<Schema>, sep: char, owner: Schema, props: Seq<(String, usize)>, j: int)
    requires
        fields_of(defs, sep, owner, props) is Ok,
        0 <= j < props.len(),
    ensures
        fields_of(defs, sep, owner, props)->Ok_0.len() == props.len(),
        field_of(defs, sep, owner, props[j].0@, props[j].1 as int) is Ok,
        fields_of(defs, sep, owner, props)->Ok_0[j] == field_of(defs, sep, owner, props[j].0@, props[j].1 as int)->Ok_0,
    decreases props.len(),
{
    let p = props.drop_last();
    lemma_fields_of_len(defs, sep, owner, props);
    if j < props.len() - 1 {
        lemma_fields_of_index(defs, sep, owner, p, j);
        assert(p[j] == props[j]);
    }
}

proof fn lemma_fields_of_len(defs: Seq<Schema>, sep: char, owner: Schema, props: Seq<(String, usize)>)
    requires
        fields_of(defs, sep, owner, props) is Ok,
    ensures
        fields_of(defs, sep, owner, props)->Ok_0.len() == props.len(),
    decreases props.len(),
{
    if props.len() > 0 {
        lemma_fields_of_len(defs, sep, owner, props.drop_last());
    }
}

/// Field `j` of the type declared for definition `id` is the one built from
/// property `j` of the definition.
pub proof fn lemma_declared_field(defs: Seq<Schema>, sep: char, id: int, o: ObjectModel, j: int)
    requires
        declared(defs, sep, id) == Ok::<Option<ObjectModel>, ErrorModel>(Some(o)),
        defs[id].properties is Some,
        0 <= j < defs[id].properties->Some_0@.len(),
    ensures
        o.fields.len() == defs[id].properties->Some_0@.len(),
        Ok::<FieldModel, ErrorModel>(o.fields[j]) == field_of(
            defs,
            sep,
            defs[id],
            defs[id].properties->Some_0@[j].0@,
            defs[id].properties->Some_0@[j].1 as int,
        ),
{
    let d = defs[id];
    lemma_fields_of_index(defs, sep, d, d.properties->Some_0@, j);
}

/// Every declared field is boxed exactly when the schema it refers to
/// carries the cyclic flag, so the edge that closes a cycle, and no other, is
/// stored indirectly.
pub proof fn lemma_boxed_iff_cyclic(defs: Seq<Schema>, sep: char, id: int, o: ObjectModel, j: int)
    requires
        declared(defs, sep, id) == Ok::<Option<ObjectModel>, ErrorModel>(Some(o)),
        defs[id].properties is Some,
        0 <= j < defs[id].properties->Some_0@.len(),
    ensures
        o.fields[j].boxed == defs[defs[id].properties->Some_0@[j].1 as int].cyclic,
{
    lemma_declared_field(defs, sep, id, o, j);
}

/// A wire name whose snake form is reserved gets exactly one `_` appended, and
/// the wire name is kept as the rename (unless the wire name already is that
/// suffixed form).
pub proof fn lemma_reserved_name_suffixed(name: Seq<char>)
    requires
        is_reserved(snake_case_of(name)),
        name != snake_case_of(name).push('_'),
    ensures
        field_ident(name) == snake_case_of(name).push('_'),
        field_ident(name).len() == snake_case_of(name).len() + 1,
        field_rename(name) == Some(name),
{
}

/// A wire name that already is a valid, unreserved snake-case identifier is
/// used as is, with no rename.
pub proof fn lemma_valid_name_not_renamed(name: Seq<char>)
    requires
        snake_case_of(name) == name,
        !is_reserved(name),
    ensures
        field_ident(name) == name,
        field_rename(name) is None,
{
}

/// Declared fields follow the two naming laws above.
pub proof fn lemma_declared_field_names(defs: Seq<Schema>, sep: char, id: int, o: ObjectModel, j: int)
    requires
        declared(defs, sep, id) == Ok::<Option<ObjectModel>, ErrorModel>(Some(o)),
        defs[id].properties is Some,
        0 <= j < defs[id].properties->Some_0@.len(),
    ensures
        ({
            let wire = defs[id].properties->Some_0@[j].0@;
            &&& o.fields[j].name == field_ident(wire)
            &&& o.fields[j].rename == field_rename(wire)
            &&& is_reserved(snake_case_of(wire)) && wire != snake_case_of(wire).push('_') ==> o.fields[j].name
                == snake_case_of(wire).push('_') && o.fields[j].rename == Some(wire)
            &&& snake_case_of(wire) == wire && !is_reserved(wire) ==> o.fields[j].rename is None
        }),
{
    lemma_declared_field(defs, sep, id, o, j);
}

/// Emitting the same definitions into two fresh registries gives the same
/// module paths and the same declared types.
pub proof fn lemma_emission_repeatable(defs: Seq<Schema>, sep: char, ds: Seq<(String, usize)>, r1: Result<(Registry, Children), ErrorModel>, r2: Result<(Registry, Children), ErrorModel>)
    requires
        r1 == declare_all(Seq::empty(), Set::empty(), defs, sep, ds),
        r2 == declare_all(Seq::empty(), Set::empty(), defs, sep, ds),
    ensures
        r1 == r2,
{
}

/// Declaring the same root definition a second time leaves the registry and
/// the module relations as the first declaration left them.
pub proof fn lemma_redeclare_root_unchanged(reg: Registry, children: Children, defs: Seq<Schema>, sep: char, id: int)
    requires
        keys_unique(reg),
        declare_root(reg, children, defs, sep, id) is Ok,
    ensures
        ({
            let st = declare_root(reg, children, defs, sep, id)->Ok_0;
            declare_root(st.0, st.1, defs, sep, id) == Ok::<(Registry, Children), ErrorModel>(st)
        }),
{
    let st = declare_root(reg, children, defs, sep, id)->Ok_0;
    if declared(defs, sep, id)->Ok_0 is Some {
        let o = declared(defs, sep, id)->Ok_0->Some_0;
        let segs = crate::naming::nonempty_segments(def_segments(defs[id], sep)->Ok_0);
        let v = ObjectModel { path: crate::naming::module_path_of(segs), ..o };
        lemma_insert_unique(reg, segs, v);
        let i = key_index(st.0, segs);
        crate::assoc::lemma_key_index(st.0, i, segs);
        assert(st.0[i] == (segs, v));
        assert(crate::assoc::assoc_insert(st.0, segs, v) =~= st.0);
        assert(st.1.union(crate::emitter::child_pairs(segs)) =~= st.1);
    }
}

/// Two definitions with the same name have the same module path.
pub proof fn lemma_same_name_same_module(a: Schema, b: Schema, sep: char)
    requires
        a.name is Some,
        b.name is Some,
        a.name->Some_0@ == b.name->Some_0@,
    ensures
        def_mod_segments(a, sep) == def_mod_segments(b, sep),
{
}

/// Merging keeps every local parameter, in front and in order; it adds only
/// shared parameters whose name no local parameter has; and every shared
/// parameter's name ends up in the result.
pub proof fn lemma_parameter_precedence(local: Seq<ParamModel>, shared: Seq<ParamModel>)
    ensures
        merge_params(local, shared).len() >= local.len(),
        merge_params(local, shared).subrange(0, local.len() as int) == local,
        forall|i: int|
            local.len() <= i < merge_params(local, shared).len() ==> !names_of(local).contains(
                #[trigger] merge_params(local, shared)[i].name,
            ) && shared.contains(merge_params(local, shared)[i]),
        forall|j: int| 0 <= j < shared.len() ==> names_of(merge_params(local, shared)).contains(#[trigger] shared[j].name),
    decreases shared.len(),
{
    let r = merge_params(local, shared);
    if shared.len() == 0 {
        assert(r.subrange(0, local.len() as int) =~= local);
    } else {
        let s0 = shared.drop_last();
        let g = shared.last();
        let m = merge_params(local, s0);
        lemma_parameter_precedence(local, s0);
        assert forall|i: int| local.len() <= i < m.len() implies shared.contains(#[trigger] m[i]) by {
            let nm = m[i].name;
            assert(!names_of(local).contains(nm));
            assert(s0.contains(m[i]));
            let k = choose|k: int| 0 <= k < s0.len() && s0[k] == m[i];
            assert(shared[k] == m[i]);
        }
        assert forall|j: int| 0 <= j < s0.len() implies names_of(m).contains(#[trigger] s0[j].name) by {}
        if names_of(m).contains(g.name) {
            assert forall|j: int| 0 <= j < shared.len() implies names_of(r).contains(#[trigger] shared[j].name) by {
                if j < s0.len() {
                    assert(s0[j] == shared[j]);
                }
            }
        } else {
            assert(r == m.push(g));
            assert(r.subrange(0, local.len() as int) =~= m.subrange(0, local.len() as int));
            assert(!names_of(local).contains(g.name)) by {
                if names_of(local).contains(g.name) {
                    let k = choose|k: int| 0 <= k < names_of(local).len() && names_of(local)[k] == g.name;
                    assert(m[k] == local[k]);
                    assert(names_of(m)[k] == g.name);
                }
            }
            assert(shared.contains(g)) by {
                assert(shared[shared.len() - 1] == g);
            }
            assert forall|j: int| 0 <= j < shared.len() implies names_of(r).contains(#[trigger] shared[j].name) by {
                if j < s0.len() {
                    assert(s0[j] == shared[j]);
                    let k = choose|k: int| 0 <= k < names_of(m).len() && names_of(m)[k] == s0[j].name;
                    assert(names_of(r)[k] == names_of(m)[k]);
                } else {
                    assert(names_of(r)[m.len() as int] == g.name);
                }
            }
        }
    }
}

/// After attaching, the type at `k` holds `req` for `meth` under `path`.
pub proof fn lemma_attached(reg: Registry, k: Seq<Seq<char>>, path: Seq<char>, meth: HttpMethod, req: ReqModel)
    requires
        registry_wf(reg),
        has_key(reg, k),
    ensures
        ({
            let r = reg_attach(reg, k, path, meth, req);
            let o = r[key_index(reg, k)].1;
            &&& r[key_index(reg, k)].0 == k
            &&& assoc_get(o.paths, path) is Some
            &&& assoc_get(assoc_get(o.paths, path)->Some_0, meth) == Some(req)
        }),
{
    let i = key_index(reg, k);
    let o = reg[i].1;
    assert(object_wf(o));
    let ops = match assoc_get(o.paths, path) {
        Some(ops) => ops,
        None => Seq::empty(),
    };
    if assoc_get(o.paths, path) is Some {
        assert(keys_unique(o.paths[key_index(o.paths, path)].1));
    }
    lemma_insert_unique(ops, meth, req);
    lemma_insert_unique(o.paths, path, crate::assoc::assoc_insert(ops, meth, req));
}

/// An operation with a body parameter is attached to the body's type with
/// `body_required`; one without a body is attached to its first fitting 2xx
/// response type without it; one with neither leaves the registry as it was.
pub proof fn lemma_builder_attachment(reg: Registry, defs: Seq<Schema>, sep: char, path: Seq<char>, shared: Seq<ParamModel>, meth: HttpMethod, op: Operation)
    ensures
        op.parameters is Some && params_spec(reg, defs, sep, path, op.parameters->Some_0@) is Ok
            && params_spec(reg, defs, sep, path, op.parameters->Some_0@)->Ok_0.1 is Some
            ==> method_step(reg, defs, sep, path, shared, meth, op) == Ok::<Registry, ErrorModel>(
            reg_attach(
                reg,
                params_spec(reg, defs, sep, path, op.parameters->Some_0@)->Ok_0.1->Some_0,
                path,
                meth,
                ReqModel {
                    id: crate::naming::opt_string_view(op.operation_id),
                    params: merge_params(params_spec(reg, defs, sep, path, op.parameters->Some_0@)->Ok_0.0, shared),
                    body_required: true,
                },
            ),
        ),
        op.parameters is None && response_target(reg, defs, sep, op.responses@) is Some
            ==> method_step(reg, defs, sep, path, shared, meth, op) == Ok::<Registry, ErrorModel>(
            reg_attach(
                reg,
                response_target(reg, defs, sep, op.responses@)->Some_0,
                path,
                meth,
                ReqModel { id: crate::naming::opt_string_view(op.operation_id), params: shared, body_required: false },
            ),
        ),
        op.parameters is None && response_target(reg, defs, sep, op.responses@) is None
            ==> method_step(reg, defs, sep, path, shared, meth, op) == Ok::<Registry, ErrorModel>(reg),
        (op.parameters is Some && params_spec(reg, defs, sep, path, op.parameters->Some_0@) is Ok
            && params_spec(reg, defs, sep, path, op.parameters->Some_0@)->Ok_0.1 is None
            && response_target(reg, defs, sep, op.responses@) is None)
            ==> method_step(reg, defs, sep, path, shared, meth, op) == Ok::<Registry, ErrorModel>(reg),
{
}

/// The schema that an array (its items) or a pure map (its values) holds.
pub open spec fn container_child(d: Schema) -> Option<int> {
    if unit_type(d.format, d.data_type) is None && d.data_type == Some(DataType::Array) && d.items is Some {
        Some(d.items->Some_0 as int)
    } else if unit_type(d.format, d.data_type) is None && d.data_type == Some(DataType::Object) && is_map(d) {
        Some(d.additional_properties->Some_0 as int)
    } else {
        None
    }
}

/// The node reached from `id` after `n` steps from containers to what they hold.
pub open spec fn container_chain(defs: Seq<Schema>, id: int, n: nat) -> Option<int>
    decreases n,
{
    if n == 0 {
        Some(id)
    } else {
        match container_child(defs[id]) {
            Some(c) => container_chain(defs, c, (n - 1) as nat),
            None => None,
        }
    }
}

/// Running out of budget `b` means `b + 1` containers in a row.
pub proof fn lemma_budget_out_means_chain(defs: Seq<Schema>, sep: char, id: int, b: nat)
    requires
        use_type(defs, sep, id, b) matches Err(ErrorModel::RecursiveContainer(_)),
    ensures
        container_chain(defs, id, b + 1) is Some,
    decreases b,
{
    let d = defs[id];
    assert(container_child(d) is Some);
    let c = container_child(d)->Some_0;
    if b > 0 {
        lemma_budget_out_means_chain(defs, sep, c, (b - 1) as nat);
        assert(((b - 1) as nat + 1) as nat == b);
    }
    assert(container_chain(defs, id, b + 1) == container_chain(defs, c, b));
}

proof fn lemma_chain_prefix(defs: Seq<Schema>, id: int, n: nat, k: nat)
    requires
        container_chain(defs, id, n) is Some,
        k <= n,
    ensures
        container_chain(defs, id, k) is Some,
    decreases k,
{
    if k > 0 {
        lemma_chain_prefix(defs, container_child(defs[id])->Some_0, (n - 1) as nat, (k - 1) as nat);
    }
}

proof fn lemma_chain_in_range(defs: Seq<Schema>, id: int, n: nat)
    requires
        schemas_wf(defs),
        0 <= id < defs.len(),
        container_chain(defs, id, n) is Some,
    ensures
        0 <= container_chain(defs, id, n)->Some_0 < defs.len(),
    decreases n,
{
    if n > 0 {
        let d = defs[id];
        assert(d.items matches Some(c) ==> c < defs.len());
        assert(d.additional_properties matches Some(c) ==> c < defs.len());
        lemma_chain_in_range(defs, container_child(d)->Some_0, (n - 1) as nat);
    }
}

/// `RecursiveContainer` comes only from a cycle of containers: with the arena
/// size as budget, the chain of array items and map values from `id` meets
/// some node twice, so without the budget the recursion would never end.
pub proof fn lemma_recursive_container_only_on_cycle(defs: Seq<Schema>, sep: char, id: int)
    requires
        schemas_wf(defs),
        0 <= id < defs.len(),
        use_type(defs, sep, id, defs.len() as nat) matches Err(ErrorModel::RecursiveContainer(_)),
    ensures
        exists|i: int, j: int|
            0 <= i < j <= defs.len() && #[trigger] container_chain(defs, id, i as nat) is Some
                && #[trigger] container_chain(defs, id, j as nat) == container_chain(defs, id, i as nat),
{
    let n = defs.len() as nat;
    lemma_budget_out_means_chain(defs, sep, id, n);
    let nodes = Seq::new(n + 1, |k: int| container_chain(defs, id, k as nat)->Some_0);
    assert forall|k: int| 0 <= k < nodes.len() implies container_chain(defs, id, k as nat) is Some && 0 <= #[trigger] nodes[k] < n by {
        lemma_chain_prefix(defs, id, n + 1, k as nat);
        lemma_chain_in_range(defs, id, k as nat);
    }
    lemma_int_range(0, n as int);
    assert(nodes.to_set().subset_of(set_int_range(0, n as int))) by {
        assert forall|x: int| nodes.to_set().contains(x) implies set_int_range(0, n as int).contains(x) by {
            let k = choose|k: int| 0 <= k < nodes.len() && nodes[k] == x;
            assert(0 <= nodes[k] < n);
        }
    }
    lemma_len_subset(nodes.to_set(), set_int_range(0, n as int));
    if nodes.no_duplicates() {
        nodes.unique_seq_to_set();
        assert(false);
    }
    let (i, j) = choose|i: int, j: int| 0 <= i < nodes.len() && 0 <= j < nodes.len() && i != j && nodes[i] == nodes[j];
    let (a, b) = if i < j { (i, j) } else { (j, i) };
    assert(nodes[a] == nodes[b]);
    assert(container_chain(defs, id, a as nat) is Some && container_chain(defs, id, b as nat) is Some);
    assert(container_chain(defs, id, b as nat) == container_chain(defs, id, a as nat));
}

/// What declaring root definition `id` stores, if anything: the module path,
/// the declared type and the module relations along the path.
pub open spec fn root_insert(defs: Seq<Schema>, sep: char, id: int) -> Option<(Seq<Seq<char>>, ObjectModel, Children)> {
    match declared(defs, sep, id) {
        Ok(Some(o)) => match def_segments(defs[id], sep) {
            Ok(raw) => if nonempty_segments(raw).len() > 0 {
                let segs = nonempty_segments(raw);
                Some((segs, ObjectModel { path: module_path_of(segs), ..o }, child_pairs(segs)))
            } else {
                None
            },
            Err(_) => None,
        },
        _ => None,
    }
}

/// The type last stored at module path `k` by the given definitions.
pub open spec fn last_stored(defs: Seq<Schema>, sep: char, ds: Seq<(String, usize)>, k: Seq<Seq<char>>) -> Option<ObjectModel>
    decreases ds.len(),
{
    if ds.len() == 0 {
        None
    } else {
        match root_insert(defs, sep, ds.last().1 as int) {
            Some(ins) => if ins.0 == k {
                Some(ins.1)
            } else {
                last_stored(defs, sep, ds.drop_last(), k)
            },
            None => last_stored(defs, sep, ds.drop_last(), k),
        }
    }
}

/// Every module relation that the given definitions record.
pub open spec fn relations_of(defs: Seq<Schema>, sep: char, ds: Seq<(String, usize)>) -> Children
    decreases ds.len(),
{
    if ds.len() == 0 {
        Set::empty()
    } else {
        match root_insert(defs, sep, ds.last().1 as int) {
            Some(ins) => relations_of(defs, sep, ds.drop_last()).union(ins.2),
            None => relations_of(defs, sep, ds.drop_last()),
        }
    }
}

/// Every module path that the given definitions store at is already a key.
pub open spec fn all_present(reg: Registry, defs: Seq<Schema>, sep: char, ds: Seq<(String, usize)>) -> bool {
    forall|j: int|
        0 <= j < ds.len() && #[trigger] root_insert(defs, sep, ds[j].1 as int) is Some ==> has_key(
            reg,
            root_insert(defs, sep, ds[j].1 as int)->Some_0.0,
        )
}

proof fn lemma_declare_all_effect(reg: Registry, ch: Children, defs: Seq<Schema>, sep: char, ds: Seq<(String, usize)>)
    requires
        keys_unique(reg),
        declare_all(reg, ch, defs, sep, ds) is Ok,
    ensures
        ({
            let st = declare_all(reg, ch, defs, sep, ds)->Ok_0;
            &&& keys_unique(st.0)
            &&& st.0.len() >= reg.len()
            &&& forall|p: int| 0 <= p < reg.len() ==> #[trigger] st.0[p].0 == reg[p].0
            &&& forall|k: Seq<Seq<char>>| #[trigger] assoc_get(st.0, k) == match last_stored(defs, sep, ds, k) {
                Some(v) => Some(v),
                None => assoc_get(reg, k),
            }
            &&& st.1 == ch.union(relations_of(defs, sep, ds))
            &&& all_present(reg, defs, sep, ds) ==> st.0.len() == reg.len()
        }),
    decreases ds.len(),
{
    if ds.len() == 0 {
        assert(ch.union(Set::empty()) =~= ch);
        return;
    }
    let pre = ds.drop_last();
    assert(declare_all(reg, ch, defs, sep, pre) is Ok);
    lemma_declare_all_effect(reg, ch, defs, sep, pre);
    let st0 = declare_all(reg, ch, defs, sep, pre)->Ok_0;
    let st = declare_all(reg, ch, defs, sep, ds)->Ok_0;
    let id = ds.last().1 as int;
    if all_present(reg, defs, sep, ds) {
        assert forall|j: int| 0 <= j < pre.len() && #[trigger] root_insert(defs, sep, pre[j].1 as int) is Some
            implies has_key(reg, root_insert(defs, sep, pre[j].1 as int)->Some_0.0) by {
            assert(pre[j] == ds[j]);
        }
    }
    match root_insert(defs, sep, id) {
        Some(ins) => {
            let (k, v, pairs) = ins;
            lemma_insert_unique(st0.0, k, v);
            assert(st.0 == crate::assoc::assoc_insert(st0.0, k, v));
            assert forall|q: Seq<Seq<char>>| #[trigger] assoc_get(st.0, q) == match last_stored(defs, sep, ds, q) {
                Some(w) => Some(w),
                None => assoc_get(reg, q),
            } by {
                if q != k {
                    crate::assoc::lemma_insert_other(st0.0, k, v, q);
                }
            }
            assert(st.1 =~= ch.union(relations_of(defs, sep, ds)));
            if all_present(reg, defs, sep, ds) {
                assert(ds[ds.len() - 1] == ds.last());
                let i = key_index(reg, k);
                assert(st0.0[i].0 == k);
                assert(has_key(st0.0, k));
            }
        },
        None => {
            assert(st == st0);
        },
    }
}

proof fn lemma_declare_all_ok_anywhere(reg: Registry, ch: Children, reg2: Registry, ch2: Children, defs: Seq<Schema>, sep: char, ds: Seq<(String, usize)>)
    requires
        declare_all(reg, ch, defs, sep, ds) is Ok,
    ensures
        declare_all(reg2, ch2, defs, sep, ds) is Ok,
    decreases ds.len(),
{
    if ds.len() > 0 {
        lemma_declare_all_ok_anywhere(reg, ch, reg2, ch2, defs, sep, ds.drop_last());
    }
}

proof fn lemma_last_stored_some(defs: Seq<Schema>, sep: char, ds: Seq<(String, usize)>, j: int)
    requires
        0 <= j < ds.len(),
        root_insert(defs, sep, ds[j].1 as int) is Some,
    ensures
        last_stored(defs, sep, ds, root_insert(defs, sep, ds[j].1 as int)->Some_0.0) is Some,
    decreases ds.len(),
{
    let k = root_insert(defs, sep, ds[j].1 as int)->Some_0.0;
    if j < ds.len() - 1 {
        let pre = ds.drop_last();
        assert(pre[j] == ds[j]);
        lemma_last_stored_some(defs, sep, pre, j);
    }
}

/// Emitting the same definitions a second time, into the registry and module
/// relations that the first emission produced, changes neither.
pub proof fn lemma_emission_idempotent(reg: Registry, ch: Children, defs: Seq<Schema>, sep: char, ds: Seq<(String, usize)>)
    requires
        keys_unique(reg),
        declare_all(reg, ch, defs, sep, ds) is Ok,
    ensures
        ({
            let st = declare_all(reg, ch, defs, sep, ds)->Ok_0;
            declare_all(st.0, st.1, defs, sep, ds) == Ok::<(Registry, Children), ErrorModel>(st)
        }),
{
    let st = declare_all(reg, ch, defs, sep, ds)->Ok_0;
    lemma_declare_all_effect(reg, ch, defs, sep, ds);
    lemma_declare_all_ok_anywhere(reg, ch, st.0, st.1, defs, sep, ds);
    assert forall|j: int| 0 <= j < ds.len() && #[trigger] root_insert(defs, sep, ds[j].1 as int) is Some
        implies has_key(st.0, root_insert(defs, sep, ds[j].1 as int)->Some_0.0) by {
        let k = root_insert(defs, sep, ds[j].1 as int)->Some_0.0;
        lemma_last_stored_some(defs, sep, ds, j);
        assert(assoc_get(st.0, k) is Some);
    }
    lemma_declare_all_effect(st.0, st.1, defs, sep, ds);
    let st2 = declare_all(st.0, st.1, defs, sep, ds)->Ok_0;
    assert forall|p: int| 0 <= p < st.0.len() implies st2.0[p] == st.0[p] by {
        let k = st.0[p].0;
        crate::assoc::lemma_key_index(st.0, p, k);
        crate::assoc::lemma_key_index(st2.0, p, k);
        assert(assoc_get(st2.0, k) == assoc_get(st.0, k));
    }
    assert(st2.0 =~= st.0);
    assert(st2.1 =~= st.1);
}

} // verus!
