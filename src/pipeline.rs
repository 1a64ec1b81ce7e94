use vstd::prelude::*;
use crate::collector::{path_spec, Registry};
use crate::emitter::declare_root;
use crate::error::{EmitError, ErrorModel};
use crate::model::{api_wf, operation_map_wf, Api, OperationMap, Schema};
use crate::state::{CodegenEmitter, ModPath};

verus! {

pub type Children = Set<(ModPath, Seq<char>)>;

/// The registry and module relations after declaring the given root
/// definitions in order; the first error wins.
pub open spec fn declare_all(reg: Registry, children: Children, defs: Seq<Schema>, sep: char, ds: Seq<(String, usize)>) -> Result<(Registry, Children), ErrorModel>
    decreases ds.len(),
{
    if ds.len() == 0 {
        Ok((reg, children))
    } else {
        match declare_all(reg, children, defs, sep, ds.drop_last()) {
            Err(e) => Err(e),
            Ok(st) => declare_root(st.0, st.1, defs, sep, ds.last().1 as int),
        }
    }
}

/// The registry after collecting the requirements of the given paths in
/// order; the first error wins.
pub open spec fn collect_all(reg: Registry, defs: Seq<Schema>, sep: char, ps: Seq<(String, OperationMap)>) -> Result<Registry, ErrorModel>
    decreases ps.len(),
{
    if ps.len() == 0 {
        Ok(reg)
    } else {
        match collect_all(reg, defs, sep, ps.drop_last()) {
            Err(e) => Err(e),
            Ok(r) => path_spec(r, defs, sep, ps.last().0@, ps.last().1),
        }
    }
}

/// A whole run: every definition is declared before any path is collected.
pub open spec fn generate_spec(reg: Registry, children: Children, api: Api, sep: char) -> Result<(Registry, Children), ErrorModel> {
    match declare_all(reg, children, api.schemas@, sep, api.definitions@) {
        Err(e) => Err(e),
        Ok(st) => match collect_all(st.0, api.schemas@, sep, api.paths@) {
            Ok(r) => Ok((r, st.1)),
            Err(e) => Err(e),
        },
    }
}

pub proof fn lemma_declare_all_err_extends(reg: Registry, children: Children, defs: Seq<Schema>, sep: char, ds: Seq<(String, usize)>, k: int)
    requires
        0 <= k <= ds.len(),
        declare_all(reg, children, defs, sep, ds.subrange(0, k)) is Err,
    ensures
        declare_all(reg, children, defs, sep, ds) == declare_all(reg, children, defs, sep, ds.subrange(0, k)),
    decreases ds.len() - k,
{
    if k < ds.len() {
        assert(ds.subrange(0, k + 1).drop_last() =~= ds.subrange(0, k));
        lemma_declare_all_err_extends(reg, children, defs, sep, ds, k + 1);
    } else {
        assert(ds.subrange(0, k) =~= ds);
    }
}

pub proof fn lemma_collect_all_err_extends(reg: Registry, defs: Seq<Schema>, sep: char, ps: Seq<(String, OperationMap)>, k: int)
    requires
        0 <= k <= ps.len(),
        collect_all(reg, defs, sep, ps.subrange(0, k)) is Err,
    ensures
        collect_all(reg, defs, sep, ps) == collect_all(reg, defs, sep, ps.subrange(0, k)),
    decreases ps.len() - k,
{
    if k < ps.len() {
        assert(ps.subrange(0, k + 1).drop_last() =~= ps.subrange(0, k));
        lemma_collect_all_err_extends(reg, defs, sep, ps, k + 1);
    } else {
        assert(ps.subrange(0, k) =~= ps);
    }
}

impl CodegenEmitter {
    /// Declares the types that the document's definitions need.
    pub fn generate_definitions(&mut self, api: &Api) -> (r: Result<(), EmitError>)
        requires
            old(self).wf(),
            api_wf(*api),
        ensures
            final(self).wf(),
            final(self).ns_sep == old(self).ns_sep,
            match declare_all(old(self).reg(), old(self).children(), api.schemas@, old(self).ns_sep, api.definitions@) {
                Ok(st) => r is Ok && final(self).reg() == st.0 && final(self).children() == st.1,
                Err(e) => r matches Err(x) && x@ == e,
            },
    {
        let ghost ds = api.definitions@;
        let ghost reg0 = self.reg();
        let ghost ch0 = self.children();
        assert(ds.subrange(0, 0) =~= Seq::<(String, usize)>::empty());
        let mut i: usize = 0;
        while i < api.definitions.len()
            invariant
                self.wf(),
                api_wf(*api),
                ds == api.definitions@,
                reg0 == old(self).reg(),
                ch0 == old(self).children(),
                self.ns_sep == old(self).ns_sep,
                i <= ds.len(),
                declare_all(reg0, ch0, api.schemas@, self.ns_sep, ds.subrange(0, i as int)) == Ok::<
                    (Registry, Children),
                    ErrorModel,
                >((self.reg(), self.children())),
            decreases ds.len() - i,
        {
            let id = api.definitions[i].1;
            proof {
                let t = ds.subrange(0, i as int + 1);
                assert(t.drop_last() =~= ds.subrange(0, i as int));
                assert(t.last() == ds[i as int]);
                assert(id < api.schemas@.len());
            }
            match self.generate_def_from_root(&api.schemas, id) {
                Ok(()) => {},
                Err(e) => {
                    proof {
                        lemma_declare_all_err_extends(reg0, ch0, api.schemas@, self.ns_sep, ds, i as int + 1);
                    }
                    return Err(e);
                },
            }
            i = i + 1;
        }
        assert(ds.subrange(0, i as int) =~= ds);
        Ok(())
    }

    /// Collects the builder requirements of every path of the document.
    pub fn collect_all_requirements(&mut self, api: &Api) -> (r: Result<(), EmitError>)
        requires
            old(self).wf(),
            api_wf(*api),
        ensures
            final(self).wf(),
            final(self).ns_sep == old(self).ns_sep,
            final(self).children() == old(self).children(),
            match collect_all(old(self).reg(), api.schemas@, old(self).ns_sep, api.paths@) {
                Ok(rg) => r is Ok && final(self).reg() == rg,
                Err(e) => r matches Err(x) && x@ == e,
            },
    {
        let ghost ps = api.paths@;
        let ghost reg0 = self.reg();
        assert(ps.subrange(0, 0) =~= Seq::<(String, OperationMap)>::empty());
        let mut i: usize = 0;
        while i < api.paths.len()
            invariant
                self.wf(),
                api_wf(*api),
                ps == api.paths@,
                reg0 == old(self).reg(),
                self.ns_sep == old(self).ns_sep,
                self.children() == old(self).children(),
                i <= ps.len(),
                collect_all(reg0, api.schemas@, self.ns_sep, ps.subrange(0, i as int)) == Ok::<Registry, ErrorModel>(self.reg()),
            decreases ps.len() - i,
        {
            let path = &api.paths[i].0;
            let map = &api.paths[i].1;
            proof {
                let t = ps.subrange(0, i as int + 1);
                assert(t.drop_last() =~= ps.subrange(0, i as int));
                assert(t.last() == ps[i as int]);
                assert(operation_map_wf(ps[i as int].1, api.schemas@.len() as int));
            }
            match self.collect_requirements_for_path(&api.schemas, path.as_str(), map) {
                Ok(()) => {},
                Err(e) => {
                    proof {
                        lemma_collect_all_err_extends(reg0, api.schemas@, self.ns_sep, ps, i as int + 1);
                    }
                    return Err(e);
                },
            }
            i = i + 1;
        }
        assert(ps.subrange(0, i as int) =~= ps);
        Ok(())
    }

    /// Runs the engine on a document: declares every definition's type, then
    /// attaches the requirements of every path.
    pub fn generate(&mut self, api: &Api) -> (r: Result<(), EmitError>)
        requires
            old(self).wf(),
            api_wf(*api),
        ensures
            final(self).wf(),
            final(self).ns_sep == old(self).ns_sep,
            match generate_spec(old(self).reg(), old(self).children(), *api, old(self).ns_sep) {
                Ok(st) => r is Ok && final(self).reg() == st.0 && final(self).children() == st.1,
                Err(e) => r matches Err(x) && x@ == e,
            },
    {
        match self.generate_definitions(api) {
            Ok(()) => {},
            Err(e) => return Err(e),
        }
        self.collect_all_requirements(api)
    }
}

} // verus!
