use vstd::prelude::*;

verus! {

/// What heck's snake case conversion makes of a string.
pub uninterp spec fn snake_case_of(s: Seq<char>) -> Seq<char>;

/// What heck's camel case conversion makes of a string.
pub uninterp spec fn camel_case_of(s: Seq<char>) -> Seq<char>;

/// Relies on heck's `SnekCase::to_snek_case` (an alias of `SnakeCase::to_snake_case`),
/// whose result depends on the characters of `s` alone.
#[verifier::external_body]
fn to_snake(s: &str) -> (r: String)
    ensures
        r@ == snake_case_of(s@),
{
    heck::SnekCase::to_snek_case(s)
}

/// Relies on heck's `CamelCase::to_camel_case`, whose result depends on the
/// characters of `s` alone.
#[verifier::external_body]
fn to_camel(s: &str) -> (r: String)
    ensures
        r@ == camel_case_of(s@),
{
    heck::CamelCase::to_camel_case(s)
}

/// Splits `s` at every occurrence of `sep`; the result always has at least one
/// segment, and empty segments are kept.
pub open spec fn split_on(s: Seq<char>, sep: char) -> Seq<Seq<char>>
    decreases s.len(),
{
    if s.len() == 0 {
        seq![Seq::<char>::empty()]
    } else {
        let p = split_on(s.drop_last(), sep);
        if s.last() == sep {
            p.push(Seq::<char>::empty())
        } else {
            p.update(p.len() - 1, p.last().push(s.last()))
        }
    }
}

pub proof fn lemma_split_on_nonempty(s: Seq<char>, sep: char)
    ensures
        split_on(s, sep).len() >= 1,
    decreases s.len(),
{
    if s.len() > 0 {
        lemma_split_on_nonempty(s.drop_last(), sep);
    }
}

/// The namespace segments of a definition name, each in snake case.
pub open spec fn ns_segments(name: Seq<char>, sep: char) -> Seq<Seq<char>> {
    split_on(name, sep).map_values(|p: Seq<char>| snake_case_of(p))
}

/// The type identifier of a definition name: its last segment in camel case.
pub open spec fn type_name_of(name: Seq<char>, sep: char) -> Seq<char> {
    camel_case_of(ns_segments(name, sep).last())
}

/// Every segment preceded by `::`.
pub open spec fn prefixed_join(segs: Seq<Seq<char>>) -> Seq<char>
    decreases segs.len(),
{
    if segs.len() == 0 {
        Seq::empty()
    } else {
        prefixed_join(segs.drop_last()) + "::"@ + segs.last()
    }
}

/// The segments joined by `::`, as a relative module path.
pub open spec fn module_path_of(segs: Seq<Seq<char>>) -> Seq<char>
    decreases segs.len(),
{
    if segs.len() == 0 {
        Seq::empty()
    } else if segs.len() == 1 {
        segs[0]
    } else {
        module_path_of(segs.drop_last()) + "::"@ + segs.last()
    }
}

/// The absolute path of a declared type: the crate root, every segment, and
/// the leaf's type name inside the leaf module.
pub open spec fn reference_path_of(segs: Seq<Seq<char>>) -> Seq<char> {
    "crate"@ + prefixed_join(segs) + "::"@ + camel_case_of(segs.last())
}

/// Identifiers reserved by the target language.
pub open spec fn is_reserved(s: Seq<char>) -> bool {
    s == "as"@
        || s == "break"@
        || s == "const"@
        || s == "continue"@
        || s == "crate"@
        || s == "dyn"@
        || s == "else"@
        || s == "enum"@
        || s == "extern"@
        || s == "false"@
        || s == "fn"@
        || s == "for"@
        || s == "if"@
        || s == "impl"@
        || s == "in"@
        || s == "let"@
        || s == "loop"@
        || s == "match"@
        || s == "mod"@
        || s == "move"@
        || s == "mut"@
        || s == "pub"@
        || s == "ref"@
        || s == "return"@
        || s == "self"@
        || s == "Self"@
        || s == "static"@
        || s == "struct"@
        || s == "super"@
        || s == "trait"@
        || s == "true"@
        || s == "type"@
        || s == "unsafe"@
        || s == "use"@
        || s == "where"@
        || s == "while"@
        || s == "abstract"@
        || s == "async"@
        || s == "await"@
        || s == "become"@
        || s == "box"@
        || s == "do"@
        || s == "final"@
        || s == "macro"@
        || s == "override"@
        || s == "priv"@
        || s == "try"@
        || s == "typeof"@
        || s == "unsized"@
        || s == "virtual"@
        || s == "yield"@
}

/// The field identifier for a wire name: snake case, with a `_` appended when
/// that collides with a reserved identifier.
pub open spec fn field_ident(name: Seq<char>) -> Seq<char> {
    let sn = snake_case_of(name);
    if is_reserved(sn) {
        sn.push('_')
    } else {
        sn
    }
}

/// The wire name to remember, if the field identifier differs from it.
pub open spec fn field_rename(name: Seq<char>) -> Option<Seq<char>> {
    if field_ident(name) != name {
        Some(name)
    } else {
        None
    }
}

pub open spec fn strings_view(v: Seq<String>) -> Seq<Seq<char>> {
    v.map_values(|s: String| s@)
}

/// Character-wise equality of two strings.
pub fn str_eq(a: &str, b: &str) -> (r: bool)
    ensures
        r == (a@ == b@),
{
    let n = a.unicode_len();
    if n != b.unicode_len() {
        return false;
    }
    let mut i: usize = 0;
    while i < n
        invariant
            n == a@.len(),
            n == b@.len(),
            i <= n,
            forall|j: int| 0 <= j < i ==> a@[j] == b@[j],
        decreases n - i,
    {
        if a.get_char(i) != b.get_char(i) {
            return false;
        }
        i = i + 1;
    }
    assert(a@ =~= b@);
    true
}

/// Whether `s` is an identifier reserved by the target language.
pub fn is_reserved_word(s: &str) -> (r: bool)
    ensures
        r == is_reserved(s@),
{
    proof {
        reveal_strlit("as");
    }
    str_eq(s, "as")
        || str_eq(s, "break")
        || str_eq(s, "const")
        || str_eq(s, "continue")
        || str_eq(s, "crate")
        || str_eq(s, "dyn")
        || str_eq(s, "else")
        || str_eq(s, "enum")
        || str_eq(s, "extern")
        || str_eq(s, "false")
        || str_eq(s, "fn")
        || str_eq(s, "for")
        || str_eq(s, "if")
        || str_eq(s, "impl")
        || str_eq(s, "in")
        || str_eq(s, "let")
        || str_eq(s, "loop")
        || str_eq(s, "match")
        || str_eq(s, "mod")
        || str_eq(s, "move")
        || str_eq(s, "mut")
        || str_eq(s, "pub")
        || str_eq(s, "ref")
        || str_eq(s, "return")
        || str_eq(s, "self")
        || str_eq(s, "Self")
        || str_eq(s, "static")
        || str_eq(s, "struct")
        || str_eq(s, "super")
        || str_eq(s, "trait")
        || str_eq(s, "true")
        || str_eq(s, "type")
        || str_eq(s, "unsafe")
        || str_eq(s, "use")
        || str_eq(s, "where")
        || str_eq(s, "while")
        || str_eq(s, "abstract")
        || str_eq(s, "async")
        || str_eq(s, "await")
        || str_eq(s, "become")
        || str_eq(s, "box")
        || str_eq(s, "do")
        || str_eq(s, "final")
        || str_eq(s, "macro")
        || str_eq(s, "override")
        || str_eq(s, "priv")
        || str_eq(s, "try")
        || str_eq(s, "typeof")
        || str_eq(s, "unsized")
        || str_eq(s, "virtual")
        || str_eq(s, "yield")
}

/// Splits `s` at every occurrence of `sep`.
pub fn split_name(s: &str, sep: char) -> (r: Vec<String>)
    ensures
        strings_view(r@) == split_on(s@, sep),
{
    let n = s.unicode_len();
    let mut segs: Vec<String> = Vec::new();
    let mut start: usize = 0;
    let mut i: usize = 0;
    proof {
        assert(s@.subrange(0, 0) =~= Seq::<char>::empty());
        assert(strings_view(segs@).push(s@.subrange(0, 0)) =~= seq![Seq::<char>::empty()]);
    }
    while i < n
        invariant
            n == s@.len(),
            start <= i <= n,
            strings_view(segs@).push(s@.subrange(start as int, i as int)) == split_on(
                s@.subrange(0, i as int),
                sep,
            ),
        decreases n - i,
    {
        let c = s.get_char(i);
        proof {
            let t = s@.subrange(0, i as int + 1);
            assert(t.drop_last() =~= s@.subrange(0, i as int));
            assert(t.last() == c);
        }
        if c == sep {
            let seg = String::from_str(s.substring_char(start, i));
            let ghost before = segs@;
            segs.push(seg);
            proof {
                assert(s@.subrange(i as int + 1, i as int + 1) =~= Seq::<char>::empty());
                assert(strings_view(segs@) =~= strings_view(before).push(seg@));
            }
            start = i + 1;
        } else {
            proof {
                let p = strings_view(segs@).push(s@.subrange(start as int, i as int));
                assert(s@.subrange(start as int, i as int + 1) =~= s@.subrange(start as int, i as int).push(c));
                assert(p.update(p.len() - 1, p.last().push(c)) =~= strings_view(segs@).push(
                    s@.subrange(start as int, i as int + 1),
                ));
            }
        }
        i = i + 1;
    }
    let last = String::from_str(s.substring_char(start, n));
    let ghost before = segs@;
    segs.push(last);
    proof {
        assert(s@.subrange(0, n as int) =~= s@);
        assert(strings_view(segs@) =~= strings_view(before).push(last@));
    }
    segs
}

pub open spec fn opt_string_view(o: Option<String>) -> Option<Seq<char>> {
    match o {
        Some(s) => Some(s@),
        None => None,
    }
}

/// Normalizes a wire name into a field identifier; the wire name comes back
/// too when the identifier differs from it.
pub fn field_name_of(name: &str) -> (r: (String, Option<String>))
    ensures
        r.0@ == field_ident(name@),
        opt_string_view(r.1) == field_rename(name@),
{
    let mut new_name = to_snake(name);
    if is_reserved_word(new_name.as_str()) {
        proof {
            reveal_strlit("_");
        }
        new_name.append("_");
        assert(new_name@ =~= snake_case_of(name@).push('_'));
    }
    let rename = if !str_eq(new_name.as_str(), name) {
        Some(String::from_str(name))
    } else {
        None
    };
    (new_name, rename)
}

/// The snake-cased namespace segments of a definition name.
pub fn namespace_segments(name: &str, sep: char) -> (r: Vec<String>)
    ensures
        strings_view(r@) == ns_segments(name@, sep),
        r@.len() >= 1,
{
    let parts = split_name(name, sep);
    proof {
        lemma_split_on_nonempty(name@, sep);
    }
    let mut segs: Vec<String> = Vec::new();
    let mut i: usize = 0;
    while i < parts.len()
        invariant
            i <= parts@.len(),
            strings_view(parts@) == split_on(name@, sep),
            strings_view(segs@) =~= split_on(name@, sep).subrange(0, i as int).map_values(
                |p: Seq<char>| snake_case_of(p),
            ),
        decreases parts@.len() - i,
    {
        let seg = to_snake(parts[i].as_str());
        let ghost before = segs@;
        segs.push(seg);
        proof {
            assert(strings_view(segs@) =~= strings_view(before).push(seg@));
            assert(parts@[i as int]@ == split_on(name@, sep)[i as int]);
        }
        i = i + 1;
    }
    proof {
        assert(split_on(name@, sep).subrange(0, i as int) =~= split_on(name@, sep));
    }
    segs
}

/// The segments joined by `::`.
pub fn module_path_string(segs: &Vec<String>) -> (r: String)
    ensures
        r@ == module_path_of(strings_view(segs@)),
{
    proof {
        reveal_strlit("::");
    }
    let mut out = String::new();
    let mut i: usize = 0;
    while i < segs.len()
        invariant
            i <= segs@.len(),
            out@ == module_path_of(strings_view(segs@).subrange(0, i as int)),
        decreases segs@.len() - i,
    {
        proof {
            let t = strings_view(segs@).subrange(0, i as int + 1);
            assert(t.drop_last() =~= strings_view(segs@).subrange(0, i as int));
            assert(t.last() == segs@[i as int]@);
        }
        if i == 0 {
            out = String::from_str(segs[0].as_str());
            assert(strings_view(segs@).subrange(0, 1) =~= seq![segs@[0]@]);
        } else {
            out.append("::");
            out.append(segs[i].as_str());
        }
        i = i + 1;
    }
    proof {
        assert(strings_view(segs@).subrange(0, i as int) =~= strings_view(segs@));
    }
    out
}

/// The absolute path of the type declared for the given segments.
pub fn reference_path(segs: &Vec<String>) -> (r: String)
    requires
        segs@.len() >= 1,
    ensures
        r@ == reference_path_of(strings_view(segs@)),
{
    proof {
        reveal_strlit("::");
        reveal_strlit("crate");
    }
    let mut out = String::from_str("crate");
    let mut i: usize = 0;
    while i < segs.len()
        invariant
            i <= segs@.len(),
            out@ == "crate"@ + prefixed_join(strings_view(segs@).subrange(0, i as int)),
        decreases segs@.len() - i,
    {
        proof {
            let t = strings_view(segs@).subrange(0, i as int + 1);
            assert(t.drop_last() =~= strings_view(segs@).subrange(0, i as int));
            assert(t.last() == segs@[i as int]@);
        }
        let ghost before = out@;
        out.append("::");
        out.append(segs[i].as_str());
        assert(out@ =~= before + ("::"@ + segs@[i as int]@));
        i = i + 1;
    }
    proof {
        assert(strings_view(segs@).subrange(0, i as int) =~= strings_view(segs@));
        assert(strings_view(segs@).last() == segs@[segs@.len() - 1]@);
    }
    let leaf = to_camel(segs[segs.len() - 1].as_str());
    out.append("::");
    out.append(leaf.as_str());
    proof {
        assert(out@ =~= reference_path_of(strings_view(segs@)));
    }
    out
}

/// The type identifier for the last of the given segments.
pub fn type_name_from(segs: &Vec<String>) -> (r: String)
    requires
        segs@.len() >= 1,
    ensures
        r@ == camel_case_of(strings_view(segs@).last()),
{
    to_camel(segs[segs.len() - 1].as_str())
}

/// The segments that are not empty, in order.
pub open spec fn nonempty_segments(segs: Seq<Seq<char>>) -> Seq<Seq<char>>
    decreases segs.len(),
{
    if segs.len() == 0 {
        Seq::empty()
    } else {
        let p = nonempty_segments(segs.drop_last());
        if segs.last().len() == 0 {
            p
        } else {
            p.push(segs.last())
        }
    }
}

/// The segments that are not empty, in order.
pub fn drop_empty_segments(segs: &Vec<String>) -> (r: Vec<String>)
    ensures
        strings_view(r@) == nonempty_segments(strings_view(segs@)),
{
    let ghost sv = strings_view(segs@);
    let mut out: Vec<String> = Vec::new();
    let mut i: usize = 0;
    assert(sv.subrange(0, 0) =~= Seq::<Seq<char>>::empty());
    assert(strings_view(out@) =~= Seq::<Seq<char>>::empty());
    while i < segs.len()
        invariant
            i <= segs@.len(),
            sv == strings_view(segs@),
            strings_view(out@) == nonempty_segments(sv.subrange(0, i as int)),
        decreases segs@.len() - i,
    {
        proof {
            let t = sv.subrange(0, i as int + 1);
            assert(t.drop_last() =~= sv.subrange(0, i as int));
            assert(t.last() == segs@[i as int]@);
        }
        if segs[i].as_str().unicode_len() != 0 {
            let ghost before = out@;
            let seg = segs[i].clone();
            out.push(seg);
            assert(strings_view(out@) =~= strings_view(before).push(seg@));
        }
        i = i + 1;
    }
    assert(sv.subrange(0, i as int) =~= sv);
    out
}

} // verus!
