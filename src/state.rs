use vstd::prelude::*;
use crate::assoc::{assoc_insert, has_key, keys_unique, lemma_insert_unique, lemma_key_index};
use crate::naming::{str_eq, strings_view};
use crate::object::{object_wf, ApiObject, ObjectModel};

verus! {

pub type ModPath = Seq<Seq<char>>;

/// The engine's state for one run: the namespace separator, the declared types
/// keyed by module path (snake-cased segments below the working root), and the
/// parent-to-child module relations found while declaring them.
pub struct CodegenEmitter {
    pub ns_sep: char,
    pub def_mods: Vec<(Vec<String>, ApiObject)>,
    pub mod_children: Vec<(Vec<String>, String)>,
}

pub open spec fn registry_view(r: Seq<(Vec<String>, ApiObject)>) -> Seq<(ModPath, ObjectModel)> {
    r.map_values(|e: (Vec<String>, ApiObject)| (strings_view(e.0@), e.1@))
}

pub open spec fn children_seq_view(c: Seq<(Vec<String>, String)>) -> Seq<(ModPath, Seq<char>)> {
    c.map_values(|e: (Vec<String>, String)| (strings_view(e.0@), e.1@))
}

/// Module paths are keys, and each declared type keeps its requirement maps keyed.
pub open spec fn registry_wf(r: Seq<(ModPath, ObjectModel)>) -> bool {
    &&& keys_unique(r)
    &&& forall|i: int| 0 <= i < r.len() ==> object_wf(#[trigger] r[i].1)
}

impl CodegenEmitter {
    pub open spec fn reg(&self) -> Seq<(ModPath, ObjectModel)> {
        registry_view(self.def_mods@)
    }

    /// The (parent module, child module name) relations recorded so far.
    pub open spec fn children(&self) -> Set<(ModPath, Seq<char>)> {
        Set::new(|p: (ModPath, Seq<char>)| children_seq_view(self.mod_children@).contains(p))
    }

    pub open spec fn wf(&self) -> bool {
        registry_wf(self.reg())
    }

    /// A fresh state with the given namespace separator.
    pub fn new(ns_sep: char) -> (r: CodegenEmitter)
        ensures
            r.ns_sep == ns_sep,
            r.reg() == Seq::<(ModPath, ObjectModel)>::empty(),
            r.children() == Set::<(ModPath, Seq<char>)>::empty(),
            r.wf(),
    {
        let r = CodegenEmitter { ns_sep, def_mods: Vec::new(), mod_children: Vec::new() };
        assert(r.reg() =~= Seq::<(ModPath, ObjectModel)>::empty());
        assert(r.children() =~= Set::<(ModPath, Seq<char>)>::empty());
        r
    }

    /// Index of the declared type at module path `key`.
    pub fn find_module(&self, key: &Vec<String>) -> (r: Option<usize>)
        requires
            self.wf(),
        ensures
            match r {
                Some(i) => i < self.reg().len() && self.reg()[i as int].0 == strings_view(key@),
                None => !has_key(self.reg(), strings_view(key@)),
            },
    {
        let mut i: usize = 0;
        while i < self.def_mods.len()
            invariant
                i <= self.def_mods@.len(),
                self.wf(),
                forall|j: int| 0 <= j < i ==> #[trigger] self.reg()[j].0 != strings_view(key@),
            decreases self.def_mods@.len() - i,
        {
            if segs_eq(&self.def_mods[i].0, key) {
                return Some(i);
            }
            i = i + 1;
        }
        None
    }

    /// Registers `obj` at module path `key`, replacing an earlier one there.
    pub fn register(&mut self, key: Vec<String>, obj: ApiObject)
        requires
            old(self).wf(),
            object_wf(obj@),
        ensures
            final(self).reg() == assoc_insert(old(self).reg(), strings_view(key@), obj@),
            final(self).children() == old(self).children(),
            final(self).ns_sep == old(self).ns_sep,
            final(self).wf(),
    {
        let ghost old_reg = self.reg();
        proof {
            lemma_insert_unique(old_reg, strings_view(key@), obj@);
        }
        let ghost new_reg = assoc_insert(old_reg, strings_view(key@), obj@);
        match self.find_module(&key) {
            Some(i) => {
                proof {
                    lemma_key_index(old_reg, i as int, strings_view(key@));
                }
                let ghost before = self.def_mods@;
                self.def_mods.remove(i);
                self.def_mods.insert(i, (key, obj));
                assert(self.def_mods@ =~= before.update(i as int, (key, obj)));
                assert(self.reg() =~= new_reg);
            },
            None => {
                let ghost before = self.def_mods@;
                self.def_mods.push((key, obj));
                assert(self.reg() =~= new_reg);
            },
        }
        assert forall|i: int| 0 <= i < new_reg.len() implies object_wf(#[trigger] new_reg[i].1) by {
            if new_reg[i].1 != obj@ {
                assert(new_reg[i] == old_reg[i]);
            }
        }
    }

    /// Records that module `parent` has a child module named `child`.
    pub fn add_child(&mut self, parent: Vec<String>, child: String)
        ensures
            final(self).children() == old(self).children().insert((strings_view(parent@), child@)),
            final(self).reg() == old(self).reg(),
            final(self).def_mods == old(self).def_mods,
            final(self).ns_sep == old(self).ns_sep,
    {
        let ghost pair = (strings_view(parent@), child@);
        let mut i: usize = 0;
        while i < self.mod_children.len()
            invariant
                i <= self.mod_children@.len(),
                pair == (strings_view(parent@), child@),
                self.mod_children == old(self).mod_children,
                self.def_mods == old(self).def_mods,
                self.ns_sep == old(self).ns_sep,
                forall|j: int| 0 <= j < i ==> #[trigger] children_seq_view(self.mod_children@)[j] != pair,
            decreases self.mod_children@.len() - i,
        {
            let same_parent = segs_eq(&self.mod_children[i].0, &parent);
            let same_child = str_eq(self.mod_children[i].1.as_str(), child.as_str());
            if same_parent && same_child {
                assert(children_seq_view(self.mod_children@)[i as int] == pair);
                assert(self.children() =~= old(self).children().insert(pair));
                return;
            }
            i = i + 1;
        }
        let ghost before = children_seq_view(self.mod_children@);
        self.mod_children.push((parent, child));
        assert(children_seq_view(self.mod_children@) =~= before.push(pair));
        assert forall|p: (ModPath, Seq<char>)| #[trigger] before.push(pair).contains(p) <==> (before.contains(p) || p == pair) by {
            if before.contains(p) {
                let j = choose|j: int| 0 <= j < before.len() && before[j] == p;
                assert(before.push(pair)[j] == p);
            }
            if p == pair {
                assert(before.push(pair)[before.len() as int] == p);
            }
            if before.push(pair).contains(p) {
                let j = choose|j: int| 0 <= j < before.len() + 1 && before.push(pair)[j] == p;
                if j < before.len() {
                    assert(before[j] == p);
                }
            }
        }
        assert(self.children() =~= old(self).children().insert(pair));
    }
}

/// Whether two module paths have the same segments.
pub fn segs_eq(a: &Vec<String>, b: &Vec<String>) -> (r: bool)
    ensures
        r == (strings_view(a@) == strings_view(b@)),
{
    if a.len() != b.len() {
        assert(strings_view(a@).len() != strings_view(b@).len());
        return false;
    }
    let mut i: usize = 0;
    while i < a.len()
        invariant
            a@.len() == b@.len(),
            i <= a@.len(),
            forall|j: int| 0 <= j < i ==> strings_view(a@)[j] == strings_view(b@)[j],
        decreases a@.len() - i,
    {
        if !str_eq(a[i].as_str(), b[i].as_str()) {
            assert(strings_view(a@)[i as int] != strings_view(b@)[i as int]);
            return false;
        }
        i = i + 1;
    }
    assert(strings_view(a@) =~= strings_view(b@));
    true
}

/// A copy of a list of strings.
pub fn copy_strings(v: &Vec<String>) -> (r: Vec<String>)
    ensures
        strings_view(r@) == strings_view(v@),
{
    let mut out: Vec<String> = Vec::new();
    let mut i: usize = 0;
    while i < v.len()
        invariant
            i <= v@.len(),
            strings_view(out@) =~= strings_view(v@).subrange(0, i as int),
        decreases v@.len() - i,
    {
        let ghost before = out@;
        out.push(v[i].clone());
        assert(strings_view(out@) =~= strings_view(before).push(v@[i as int]@));
        i = i + 1;
    }
    assert(strings_view(v@).subrange(0, i as int) =~= strings_view(v@));
    out
}

} // verus!
