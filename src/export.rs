//! Export: the attribute set to request, the objects built from search
//! results, and the domain-suffix rewrite of the encoded snapshot.

use vstd::prelude::*;
use vstd::string::{StrSliceExecFns, StringExecFns};
use crate::attrs::{contains_name, values_view};
use crate::object::{cn_name, object_class_name, LdapObject};
use crate::text::{
    chars_of, find_chars, is_first_occurrence, occurs_at, replace_chars, replaced, string_of,
};

verus! {

/// The attributes every export requests.
pub open spec fn base_properties() -> Seq<Seq<char>> {
    seq![object_class_name(), cn_name()]
}

/// `s` with each repeated name dropped after its first occurrence.
pub open spec fn dedup(s: Seq<Seq<char>>) -> Seq<Seq<char>>
    decreases s.len(),
{
    if s.len() == 0 {
        seq![]
    } else {
        let d = dedup(s.drop_last());
        if d.contains(s.last()) {
            d
        } else {
            d.push(s.last())
        }
    }
}

pub open spec fn no_duplicates(s: Seq<Seq<char>>) -> bool {
    forall|i: int, j: int| 0 <= i < j < s.len() ==> s[i] != s[j]
}

/// The attribute names an export requests for the caller's list `props`.
pub open spec fn requested(props: Seq<Seq<char>>) -> Seq<Seq<char>> {
    dedup(base_properties() + props)
}

pub open spec fn domain_mark() -> Seq<char> {
    seq![',', 'D', 'C', '=']
}

/// The domain suffix of a distinguished name: from the first `,DC=` to the
/// end, or empty where there is none.
pub open spec fn domain_suffix(dn: Seq<char>) -> Seq<char> {
    if exists|i: int| occurs_at(dn, domain_mark(), i) {
        dn.subrange(choose|i: int| is_first_occurrence(dn, domain_mark(), i), dn.len() as int)
    } else {
        seq![]
    }
}

/// The encoded snapshot with the first object's domain suffix replaced by
/// `,` followed by `target`.
pub open spec fn rewritten(doc: Seq<char>, first_dn: Seq<char>, target: Seq<char>) -> Seq<char> {
    replaced(doc, domain_suffix(first_dn), seq![','] + target)
}

/// A name is in the deduplicated list exactly when it is in the list, and
/// the deduplicated list holds each name once.
pub proof fn lemma_dedup(s: Seq<Seq<char>>)
    ensures
        no_duplicates(dedup(s)),
        forall|x: Seq<char>| dedup(s).contains(x) <==> s.contains(x),
    decreases s.len(),
{
    if s.len() > 0 {
        let init = s.drop_last();
        lemma_dedup(init);
        assert(init.push(s.last()) =~= s);
        assert forall|x: Seq<char>| s.contains(x) <==> init.contains(x) || x == s.last() by {
            if s.contains(x) {
                let k = choose|k: int| 0 <= k < s.len() && s[k] == x;
                if k < s.len() - 1 {
                    assert(init[k] == x);
                }
            }
            if init.contains(x) {
                let k = choose|k: int| 0 <= k < init.len() && init[k] == x;
                assert(s[k] == x);
            }
            if x == s.last() {
                assert(s[s.len() - 1] == x);
            }
        }
        let d = dedup(init);
        if !d.contains(s.last()) {
            assert forall|x: Seq<char>| d.push(s.last()).contains(x) <==> d.contains(x) || x
                == s.last() by {
                if d.push(s.last()).contains(x) {
                    let k = choose|k: int| 0 <= k < d.len() + 1 && d.push(s.last())[k] == x;
                    if k < d.len() {
                        assert(d[k] == x);
                    }
                }
                if d.contains(x) {
                    let k = choose|k: int| 0 <= k < d.len() && d[k] == x;
                    assert(d.push(s.last())[k] == x);
                }
                if x == s.last() {
                    assert(d.push(s.last())[d.len() as int] == x);
                }
            }
            assert forall|i: int, j: int| 0 <= i < j < d.len() + 1 implies d.push(s.last())[i]
                != d.push(s.last())[j] by {
                if j == d.len() {
                    assert(d[i] != s.last());
                }
            }
        }
    }
}

/// The requested attribute set always holds `objectClass` and `cn`, holds
/// exactly the names of those two and of the caller's list, and names each
/// attribute once.
pub proof fn lemma_requested_attributes(props: Seq<Seq<char>>)
    ensures
        requested(props).contains(object_class_name()),
        requested(props).contains(cn_name()),
        no_duplicates(requested(props)),
        forall|x: Seq<char>|
            requested(props).contains(x) <==> (x == object_class_name() || x == cn_name()
                || props.contains(x)),
{
    let all = base_properties() + props;
    lemma_dedup(all);
    assert(all[0] == object_class_name());
    assert(all[1] == cn_name());
    assert(all.contains(object_class_name()));
    assert(all.contains(cn_name()));
    assert forall|x: Seq<char>| all.contains(x) <==> (x == object_class_name() || x == cn_name()
        || props.contains(x)) by {
        if all.contains(x) {
            let k = choose|k: int| 0 <= k < all.len() && all[k] == x;
            if k >= 2 {
                assert(props[k - 2] == x);
            }
        }
        if props.contains(x) {
            let k = choose|k: int| 0 <= k < props.len() && props[k] == x;
            assert(all[k + 2] == x);
        }
    }
}

/// The attribute names to request: `objectClass`, `cn`, then the caller's
/// names, each name once, in that order of first appearance.
pub fn requested_attributes(props: &Vec<String>) -> (r: Vec<String>)
    ensures
        values_view(r) == requested(values_view(*props)),
{
    let class_key = String::from_str("objectClass");
    let cn_key = String::from_str("cn");
    proof {
        reveal_strlit("objectClass");
        reveal_strlit("cn");
        assert(class_key@ =~= object_class_name());
        assert(cn_key@ =~= cn_name());
    }
    let mut all: Vec<String> = Vec::new();
    all.push(class_key);
    all.push(cn_key);
    assert(values_view(all) =~= base_properties());
    let mut k: usize = 0;
    while k < props.len()
        invariant
            k <= props.len(),
            values_view(all) == base_properties() + values_view(*props).subrange(0, k as int),
        decreases props.len() - k,
    {
        let ghost before = values_view(all);
        all.push(props[k].clone());
        assert(values_view(all) =~= before.push(props@[k as int]@));
        assert(values_view(*props).subrange(0, k + 1) =~= values_view(*props).subrange(
            0,
            k as int,
        ).push(props@[k as int]@));
        k = k + 1;
        assert(values_view(all) =~= base_properties() + values_view(*props).subrange(0, k as int));
    }
    assert(values_view(*props).subrange(0, props.len() as int) =~= values_view(*props));
    let ghost a = values_view(all);
    let mut out: Vec<String> = Vec::new();
    let mut i: usize = 0;
    assert(values_view(out) =~= dedup(a.subrange(0, 0)));
    while i < all.len()
        invariant
            i <= all.len(),
            a == values_view(all),
            values_view(out) == dedup(a.subrange(0, i as int)),
        decreases all.len() - i,
    {
        assert(a.subrange(0, i + 1).drop_last() =~= a.subrange(0, i as int));
        assert(a.subrange(0, i + 1).last() == all@[i as int]@);
        if !contains_name(&out, &all[i]) {
            out.push(all[i].clone());
            assert(values_view(out) =~= dedup(a.subrange(0, i + 1)));
        }
        i = i + 1;
    }
    assert(a.subrange(0, a.len() as int) =~= a);
    out
}

/// The domain suffix of `dn`: from its first `,DC=` to the end, or empty.
pub fn domain_suffix_of(dn: &str) -> (r: String)
    ensures
        r@ == domain_suffix(dn@),
{
    let cs = chars_of(dn);
    let mark = chars_of(",DC=");
    proof {
        reveal_strlit(",DC=");
        assert(mark@ =~= domain_mark());
    }
    match find_chars(&cs, &mark) {
        Some(i) => {
            proof {
                let j = choose|j: int| is_first_occurrence(dn@, domain_mark(), j);
                assert(occurs_at(dn@, domain_mark(), i as int));
                if j < i {
                    assert(!occurs_at(dn@, domain_mark(), j));
                }
                if i < j {
                    assert(!occurs_at(dn@, domain_mark(), i as int));
                }
            }
            let n = dn.unicode_len();
            String::from_str(dn.substring_char(i, n))
        },
        None => String::new(),
    }
}

/// Replaces, across the whole encoded snapshot `doc`, every occurrence of
/// the domain suffix of `first_dn` by `,` followed by `target`. This is a
/// plain text substitution: an unrelated value holding the suffix is
/// rewritten too.
pub fn rewrite_domain(doc: &str, first_dn: &str, target: &str) -> (r: String)
    ensures
        r@ == rewritten(doc@, first_dn@, target@),
{
    let suffix = domain_suffix_of(first_dn);
    let mut rep: Vec<char> = vec![','];
    let t = chars_of(target);
    crate::text::push_all(&mut rep, &t);
    assert(rep@ =~= seq![','] + target@);
    let d = chars_of(doc);
    let s = chars_of(suffix.as_str());
    let out = replace_chars(&d, &s, &rep);
    string_of(&out)
}

/// The text to persist for an export of `objects` whose encoding is `doc`:
/// nothing for an empty export; otherwise `doc`, with the first object's
/// domain suffix rewritten where a target domain is given.
pub fn finish_export(objects: &Vec<LdapObject>, doc: &str, target_domain: &Option<String>) -> (r:
    Option<String>)
    ensures
        objects.len() == 0 ==> r is None,
        objects.len() > 0 ==> r is Some,
        r matches Some(text) ==> text@ == match target_domain {
            Some(t) => rewritten(doc@, objects@[0].dn@, t@),
            None => doc@,
        },
{
    if objects.len() == 0 {
        return None;
    }
    match target_domain {
        Some(t) => Some(rewrite_domain(doc, objects[0].dn.as_str(), t.as_str())),
        None => Some(String::from_str(doc)),
    }
}

} // verus!
