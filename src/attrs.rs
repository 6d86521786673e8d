//! Attribute lists: ordered (name, values) pairs, and the operations that
//! look up, drop and copy them.

use vstd::prelude::*;

verus! {

/// An attribute as contracts see it: its name and its values in order.
pub type AttrView = (Seq<char>, Seq<Seq<char>>);

/// The character sequences of a list of strings.
pub open spec fn values_view(v: Vec<String>) -> Seq<Seq<char>> {
    v@.map_values(|s: String| s@)
}

pub open spec fn attr_view(p: (String, Vec<String>)) -> AttrView {
    (p.0@, values_view(p.1))
}

pub open spec fn attrs_view(v: Seq<(String, Vec<String>)>) -> Seq<AttrView> {
    v.map_values(|p: (String, Vec<String>)| attr_view(p))
}

/// The values of the first attribute called `name`.
pub open spec fn lookup(attrs: Seq<AttrView>, name: Seq<char>) -> Option<Seq<Seq<char>>>
    decreases attrs.len(),
{
    if attrs.len() == 0 {
        None
    } else if attrs[0].0 == name {
        Some(attrs[0].1)
    } else {
        lookup(attrs.drop_first(), name)
    }
}

/// `attrs` without the attributes whose name is in `names`, order kept.
pub open spec fn drop_named(attrs: Seq<AttrView>, names: Seq<Seq<char>>) -> Seq<AttrView>
    decreases attrs.len(),
{
    if attrs.len() == 0 {
        seq![]
    } else {
        let rest = drop_named(attrs.drop_last(), names);
        if names.contains(attrs.last().0) {
            rest
        } else {
            rest.push(attrs.last())
        }
    }
}

/// Whether some attribute of `attrs` is called by a name in `names`.
pub open spec fn mentions_any(attrs: Seq<AttrView>, names: Seq<Seq<char>>) -> bool {
    exists|i: int| 0 <= i < attrs.len() && names.contains(#[trigger] attrs[i].0)
}

pub proof fn lemma_lookup_at(s: Seq<AttrView>, name: Seq<char>, i: int)
    requires
        0 <= i < s.len(),
        s[i].0 == name,
        forall|j: int| 0 <= j < i ==> s[j].0 != name,
    ensures
        lookup(s, name) == Some(s[i].1),
    decreases i,
{
    if i > 0 {
        assert forall|j: int| 0 <= j < i - 1 implies s.drop_first()[j].0 != name by {
            assert(s.drop_first()[j] == s[j + 1]);
        }
        lemma_lookup_at(s.drop_first(), name, i - 1);
    }
}

pub proof fn lemma_lookup_none(s: Seq<AttrView>, name: Seq<char>)
    requires
        forall|j: int| 0 <= j < s.len() ==> s[j].0 != name,
    ensures
        lookup(s, name) is None,
    decreases s.len(),
{
    if s.len() > 0 {
        assert forall|j: int| 0 <= j < s.len() - 1 implies s.drop_first()[j].0 != name by {
            assert(s.drop_first()[j] == s[j + 1]);
        }
        lemma_lookup_none(s.drop_first(), name);
    }
}

/// Where `lookup` finds values, an attribute of that name carries them.
pub proof fn lemma_lookup_found(s: Seq<AttrView>, name: Seq<char>)
    requires
        lookup(s, name) is Some,
    ensures
        exists|i: int| 0 <= i < s.len() && s[i].0 == name && s[i].1 == lookup(s, name)->Some_0,
    decreases s.len(),
{
    if s[0].0 != name {
        lemma_lookup_found(s.drop_first(), name);
        let i = choose|i: int|
            0 <= i < s.drop_first().len() && s.drop_first()[i].0 == name && s.drop_first()[i].1
                == lookup(s.drop_first(), name)->Some_0;
        assert(s[i + 1] == s.drop_first()[i]);
    }
}

/// Where `lookup` finds nothing, no attribute has that name.
pub proof fn lemma_lookup_absent(s: Seq<AttrView>, name: Seq<char>, i: int)
    requires
        lookup(s, name) is None,
        0 <= i < s.len(),
    ensures
        s[i].0 != name,
    decreases s.len(),
{
    if i > 0 {
        assert(s[i] == s.drop_first()[i - 1]);
        lemma_lookup_absent(s.drop_first(), name, i - 1);
    }
}

/// Whether no two attributes of `s` share a name.
pub open spec fn distinct_names(s: Seq<AttrView>) -> bool {
    forall|i: int, j: int| 0 <= i < j < s.len() ==> s[i].0 != s[j].0
}

/// `drop_named` keeps exactly the attributes whose name is not dropped,
/// and keeps names distinct.
pub proof fn lemma_drop_named_members(s: Seq<AttrView>, names: Seq<Seq<char>>)
    ensures
        forall|i: int|
            0 <= i < drop_named(s, names).len() ==> s.contains(#[trigger] drop_named(s, names)[i]),
        forall|j: int|
            0 <= j < s.len() && !names.contains(s[j].0) ==> drop_named(s, names).contains(
                #[trigger] s[j],
            ),
        distinct_names(s) ==> distinct_names(drop_named(s, names)),
    decreases s.len(),
{
    if s.len() > 0 {
        let init = s.drop_last();
        let ri = drop_named(init, names);
        let r = drop_named(s, names);
        lemma_drop_named_members(init, names);
        assert forall|i: int| 0 <= i < r.len() implies s.contains(#[trigger] r[i]) by {
            if i < ri.len() {
                assert(r[i] == ri[i]);
                assert(init.contains(ri[i]));
                let j = choose|j: int| 0 <= j < init.len() && init[j] == ri[i];
                assert(s[j] == init[j]);
            } else {
                assert(r[i] == s[s.len() - 1]);
            }
        }
        assert forall|j: int| 0 <= j < s.len() && !names.contains(s[j].0) implies r.contains(
            #[trigger] s[j],
        ) by {
            if j < s.len() - 1 {
                assert(s[j] == init[j]);
                assert(ri.contains(init[j]));
                let i = choose|i: int| 0 <= i < ri.len() && ri[i] == init[j];
                assert(r[i] == ri[i]);
            } else {
                assert(r[r.len() - 1] == s[j]);
            }
        }
        if distinct_names(s) {
            assert forall|i: int, j: int| 0 <= i < j < init.len() implies init[i].0
                != init[j].0 by {
                assert(init[i] == s[i]);
                assert(init[j] == s[j]);
            }
            assert forall|i: int, j: int| 0 <= i < j < r.len() implies r[i].0 != r[j].0 by {
                assert(r[i] == ri[i]);
                if j < ri.len() {
                    assert(r[j] == ri[j]);
                } else {
                    assert(init.contains(ri[i]));
                    let k = choose|k: int| 0 <= k < init.len() && init[k] == ri[i];
                    assert(s[k] == init[k]);
                    assert(r[j] == s[s.len() - 1]);
                }
            }
        }
    }
}

/// Dropping names that no attribute carries leaves the list as it is.
pub proof fn lemma_drop_unmentioned(attrs: Seq<AttrView>, names: Seq<Seq<char>>)
    requires
        !mentions_any(attrs, names),
    ensures
        drop_named(attrs, names) == attrs,
    decreases attrs.len(),
{
    if attrs.len() > 0 {
        let init = attrs.drop_last();
        assert(!mentions_any(init, names)) by {
            assert forall|i: int| 0 <= i < init.len() implies !names.contains(#[trigger] init[i].0) by {
                assert(init[i] == attrs[i]);
            }
        }
        lemma_drop_unmentioned(init, names);
        assert(!names.contains(attrs[attrs.len() - 1].0));
        assert(init.push(attrs.last()) =~= attrs);
    }
}

/// No attribute left by `drop_named` carries one of the dropped names.
pub proof fn lemma_drop_named_excludes(attrs: Seq<AttrView>, names: Seq<Seq<char>>)
    ensures
        forall|i: int|
            0 <= i < drop_named(attrs, names).len() ==> !names.contains(
                #[trigger] drop_named(attrs, names)[i].0,
            ),
    decreases attrs.len(),
{
    if attrs.len() > 0 {
        let rest = drop_named(attrs.drop_last(), names);
        lemma_drop_named_excludes(attrs.drop_last(), names);
        assert forall|i: int|
            0 <= i < drop_named(attrs, names).len() implies !names.contains(
            #[trigger] drop_named(attrs, names)[i].0,
        ) by {
            if i < rest.len() {
                assert(drop_named(attrs, names)[i] == rest[i]);
            }
        }
    }
}

/// A copy of a list of strings.
pub fn clone_values(v: &Vec<String>) -> (r: Vec<String>)
    ensures
        r@ == v@,
{
    let mut out: Vec<String> = Vec::new();
    let mut i: usize = 0;
    while i < v.len()
        invariant
            i <= v.len(),
            out@ == v@.subrange(0, i as int),
        decreases v.len() - i,
    {
        out.push(v[i].clone());
        i = i + 1;
        assert(out@ =~= v@.subrange(0, i as int));
    }
    assert(v@.subrange(0, v.len() as int) =~= v@);
    out
}

/// Whether `name` is one of `names`.
pub fn contains_name(names: &Vec<String>, name: &String) -> (b: bool)
    ensures
        b == values_view(*names).contains(name@),
{
    let mut i: usize = 0;
    while i < names.len()
        invariant
            i <= names.len(),
            forall|j: int| 0 <= j < i ==> names@[j]@ != name@,
        decreases names.len() - i,
    {
        if names[i] == *name {
            assert(values_view(*names)[i as int] == name@);
            return true;
        }
        i = i + 1;
    }
    assert forall|j: int| 0 <= j < values_view(*names).len() implies values_view(*names)[j]
        != name@ by {
        assert(values_view(*names)[j] == names@[j]@);
    }
    false
}

/// The values of the first attribute called `name`, copied.
pub fn find_values(attrs: &Vec<(String, Vec<String>)>, name: &String) -> (r: Option<Vec<String>>)
    ensures
        match r {
            Some(v) => lookup(attrs_view(attrs@), name@) == Some(values_view(v)),
            None => lookup(attrs_view(attrs@), name@) is None,
        },
{
    let ghost s = attrs_view(attrs@);
    let mut i: usize = 0;
    while i < attrs.len()
        invariant
            i <= attrs.len(),
            s == attrs_view(attrs@),
            forall|j: int| 0 <= j < i ==> s[j].0 != name@,
        decreases attrs.len() - i,
    {
        if attrs[i].0 == *name {
            let v = clone_values(&attrs[i].1);
            proof {
                lemma_lookup_at(s, name@, i as int);
            }
            return Some(v);
        }
        i = i + 1;
    }
    proof {
        lemma_lookup_none(s, name@);
    }
    None
}

/// A copy of `attrs` without the attributes whose name is in `names`.
pub fn without_names(attrs: &Vec<(String, Vec<String>)>, names: &Vec<String>) -> (r: Vec<
    (String, Vec<String>),
>)
    ensures
        attrs_view(r@) == drop_named(attrs_view(attrs@), values_view(*names)),
{
    let ghost s = attrs_view(attrs@);
    let ghost nv = values_view(*names);
    let mut out: Vec<(String, Vec<String>)> = Vec::new();
    let mut i: usize = 0;
    assert(s.subrange(0, 0).len() == 0);
    assert(attrs_view(out@) =~= seq![]);
    while i < attrs.len()
        invariant
            i <= attrs.len(),
            s == attrs_view(attrs@),
            nv == values_view(*names),
            attrs_view(out@) == drop_named(s.subrange(0, i as int), nv),
        decreases attrs.len() - i,
    {
        let ghost prev = out@;
        assert(s.subrange(0, i + 1).drop_last() =~= s.subrange(0, i as int));
        assert(s.subrange(0, i + 1).last() == attr_view(attrs@[i as int]));
        if !contains_name(names, &attrs[i].0) {
            let p = (attrs[i].0.clone(), clone_values(&attrs[i].1));
            out.push(p);
            assert(attrs_view(out@) =~= attrs_view(prev).push(attr_view(p)));
        }
        i = i + 1;
    }
    assert(s.subrange(0, s.len() as int) =~= s);
    out
}

} // verus!
