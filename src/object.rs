//! The directory object model: one entry of a snapshot, and the snapshot.

use vstd::prelude::*;
use vstd::string::StringExecFns;
use crate::attrs::{
    attrs_view, attr_view, distinct_names, drop_named, find_values, lemma_drop_named_excludes,
    lemma_drop_named_members, lemma_lookup_absent, lemma_lookup_found, lookup, values_view,
    without_names, AttrView,
};

verus! {

/// One directory entry. `cn` and `classes` are carried apart from the
/// other attributes; `password` is a plaintext credential set only when
/// an export was asked to provision one.
#[derive(Debug, Clone)]
pub struct LdapObject {
    pub dn: String,
    pub cn: Option<String>,
    pub classes: Vec<String>,
    pub password: Option<String>,
    pub attrs: Option<Vec<(String, Vec<String>)>>,
}

/// A snapshot: the objects in the order they were read.
#[derive(Debug, Clone)]
pub struct ExportToml {
    pub objects: Vec<LdapObject>,
}

/// Why a search entry could not become an object.
#[derive(Debug, Clone, Copy, PartialEq, Eq, Structural)]
pub enum EntryError {
    /// The entry has no `objectClass` attribute.
    MissingObjectClass,
}

/// An object as contracts see it.
pub struct ObjectView {
    pub dn: Seq<char>,
    pub cn: Option<Seq<char>>,
    pub classes: Seq<Seq<char>>,
    pub password: Option<Seq<char>>,
    pub attrs: Option<Seq<AttrView>>,
}

pub open spec fn opt_view(o: Option<String>) -> Option<Seq<char>> {
    match o {
        Some(s) => Some(s@),
        None => None,
    }
}

pub open spec fn opt_attrs_view(o: Option<Vec<(String, Vec<String>)>>) -> Option<Seq<AttrView>> {
    match o {
        Some(a) => Some(attrs_view(a@)),
        None => None,
    }
}

impl View for LdapObject {
    type V = ObjectView;

    open spec fn view(&self) -> ObjectView {
        ObjectView {
            dn: self.dn@,
            cn: opt_view(self.cn),
            classes: values_view(self.classes),
            password: opt_view(self.password),
            attrs: opt_attrs_view(self.attrs),
        }
    }
}

pub open spec fn cn_name() -> Seq<char> {
    seq!['c', 'n']
}

pub open spec fn object_class_name() -> Seq<char> {
    seq!['o', 'b', 'j', 'e', 'c', 't', 'C', 'l', 'a', 's', 's']
}

/// The object built from a search entry with name `dn` and attributes
/// `attrs`, or `None` where the entry has no `objectClass`.
pub open spec fn object_of_entry(dn: Seq<char>, attrs: Seq<AttrView>) -> Option<ObjectView> {
    match lookup(attrs, object_class_name()) {
        None => None,
        Some(classes) => {
            let rest = drop_named(attrs, seq![cn_name(), object_class_name()]);
            Some(
                ObjectView {
                    dn,
                    cn: match lookup(attrs, cn_name()) {
                        Some(v) => if v.len() > 0 {
                            Some(v[0])
                        } else {
                            None
                        },
                        None => None,
                    },
                    classes,
                    password: None,
                    attrs: if rest.len() == 0 {
                        None
                    } else {
                        Some(rest)
                    },
                },
            )
        },
    }
}

/// Whether `k` is an attribute name other than `cn` and `objectClass`.
pub open spec fn is_other_name(k: Seq<char>) -> bool {
    k != cn_name() && k != object_class_name()
}

pub open spec fn user_class() -> Seq<char> {
    seq!['u', 's', 'e', 'r']
}

/// The object after an export's credential step: the credential is set
/// where one is given and the object is of class `user`.
pub open spec fn with_credential(o: ObjectView, password: Option<Seq<char>>) -> ObjectView {
    match password {
        Some(p) => if o.classes.contains(user_class()) {
            ObjectView { password: Some(p), ..o }
        } else {
            o
        },
        None => o,
    }
}

#[verifier::external_type_specification]
#[verifier::external_body]
pub struct ExSearchEntry(ldap3::SearchEntry);

/// The text attributes of a search entry, by name.
pub uninterp spec fn entry_attrs(e: ldap3::SearchEntry) -> Map<Seq<char>, Seq<Seq<char>>>;

/// The distinguished name of a search entry.
pub uninterp spec fn entry_dn(e: ldap3::SearchEntry) -> Seq<char>;

/// Relies on the public fields of `ldap3::SearchEntry`: `dn`, and `attrs`, a
/// `HashMap` from attribute name to values. Walking the map yields each of
/// its names once, in the map's own order.
#[verifier::external_body]
fn entry_parts(entry: ldap3::SearchEntry) -> (r: (String, Vec<(String, Vec<String>)>))
    ensures
        r.0@ == entry_dn(entry),
        forall|i: int, j: int| 0 <= i < j < r.1@.len() ==> r.1@[i].0@ != r.1@[j].0@,
        forall|i: int|
            0 <= i < r.1@.len() ==> #[trigger] entry_attrs(entry).contains_key(r.1@[i].0@)
                && entry_attrs(entry)[r.1@[i].0@] == values_view(r.1@[i].1),
        forall|k: Seq<char>|
            #[trigger] entry_attrs(entry).contains_key(k) ==> exists|i: int|
                0 <= i < r.1@.len() && r.1@[i].0@ == k,
{
    (entry.dn, entry.attrs.into_iter().collect())
}

/// Only objects of class `user` get a credential: an object built from a
/// search entry has a credential after the credential step exactly when
/// one is given and the object is of class `user`.
pub proof fn lemma_credential_only_users(
    dn: Seq<char>,
    attrs: Seq<AttrView>,
    password: Option<Seq<char>>,
)
    requires
        object_of_entry(dn, attrs) is Some,
    ensures
        with_credential(object_of_entry(dn, attrs)->Some_0, password).password is Some <==> (
        password is Some && object_of_entry(dn, attrs)->Some_0.classes.contains(user_class())),
{
}

impl From<Vec<LdapObject>> for ExportToml {
    fn from(value: Vec<LdapObject>) -> (r: ExportToml)
        ensures
            r.objects@ == value@,
    {
        ExportToml { objects: value }
    }
}

impl vstd::std_specs::convert::FromSpecImpl<Vec<LdapObject>> for ExportToml {
    open spec fn obeys_from_spec() -> bool {
        true
    }

    open spec fn from_spec(v: Vec<LdapObject>) -> ExportToml {
        ExportToml { objects: v }
    }
}

impl LdapObject {
    /// Builds the object for a search entry with name `dn` and attributes
    /// `attrs`: `cn` is the first value of `cn`, `classes` the values of
    /// `objectClass`, and the other attributes keep their order.
    pub fn from_parts(dn: String, attrs: &Vec<(String, Vec<String>)>) -> (r: Result<
        LdapObject,
        EntryError,
    >)
        ensures
            r is Ok <==> lookup(attrs_view(attrs@), object_class_name()) is Some,
            match r {
                Ok(o) => object_of_entry(dn@, attrs_view(attrs@)) == Some(o@),
                Err(e) => e == EntryError::MissingObjectClass,
            },
    {
        let cn_key = String::from_str("cn");
        let class_key = String::from_str("objectClass");
        proof {
            reveal_strlit("cn");
            reveal_strlit("objectClass");
            assert(cn_key@ =~= cn_name());
            assert(class_key@ =~= object_class_name());
        }
        match find_values(attrs, &class_key) {
            None => Err(EntryError::MissingObjectClass),
            Some(classes) => {
                let cn = match find_values(attrs, &cn_key) {
                    Some(v) => {
                        if v.len() > 0 {
                            Some(v[0].clone())
                        } else {
                            None
                        }
                    },
                    None => None,
                };
                let names = vec![cn_key, class_key];
                assert(values_view(names) =~= seq![cn_name(), object_class_name()]);
                let rest = without_names(attrs, &names);
                let attrs_out = if rest.len() == 0 {
                    None
                } else {
                    Some(rest)
                };
                let o = LdapObject { dn, cn, classes, password: None, attrs: attrs_out };
                assert(o@.attrs == object_of_entry(dn@, attrs_view(attrs@))->Some_0.attrs);
                Ok(o)
            },
        }
    }

    /// Builds the object for a search entry; fails where the entry has no
    /// `objectClass`.
    pub fn try_from(value: ldap3::SearchEntry) -> (r: Result<LdapObject, EntryError>)
        ensures
            r is Ok <==> entry_attrs(value).contains_key(object_class_name()),
            match r {
                Ok(o) => {
                    &&& o@.dn == entry_dn(value)
                    &&& o@.classes == entry_attrs(value)[object_class_name()]
                    &&& o@.password is None
                    &&& o@.cn == if entry_attrs(value).contains_key(cn_name())
                        && entry_attrs(value)[cn_name()].len() > 0 {
                        Some(entry_attrs(value)[cn_name()][0])
                    } else {
                        None
                    }
                    &&& o@.attrs is None <==> forall|k: Seq<char>|
                        entry_attrs(value).contains_key(k) ==> !is_other_name(k)
                    &&& o@.attrs matches Some(a) ==> {
                        &&& distinct_names(a)
                        &&& forall|i: int|
                            0 <= i < a.len() ==> is_other_name(#[trigger] a[i].0)
                                && entry_attrs(value).contains_key(a[i].0)
                                && entry_attrs(value)[a[i].0] == a[i].1
                        &&& forall|k: Seq<char>|
                            entry_attrs(value).contains_key(k) && is_other_name(k) ==> exists|
                                i: int,
                            | 0 <= i < a.len() && #[trigger] a[i].0 == k
                    }
                },
                Err(e) => e == EntryError::MissingObjectClass,
            },
    {
        let ghost m = entry_attrs(value);
        let (dn, attrs) = entry_parts(value);
        let r = LdapObject::from_parts(dn, &attrs);
        proof {
            let s = attrs_view(attrs@);
            let oc = object_class_name();
            let cn = cn_name();
            let names = seq![cn, oc];
            assert forall|i: int| 0 <= i < s.len() implies m.contains_key(#[trigger] s[i].0)
                && m[s[i].0] == s[i].1 by {
                assert(s[i] == attr_view(attrs@[i]));
                assert(m.contains_key(attrs@[i].0@));
            }
            assert forall|k: Seq<char>| m.contains_key(k) implies exists|i: int|
                0 <= i < s.len() && #[trigger] s[i].0 == k by {
                let i = choose|i: int| 0 <= i < attrs@.len() && attrs@[i].0@ == k;
                assert(s[i] == attr_view(attrs@[i]));
                assert(s[i].0 == k);
            }
            assert(distinct_names(s)) by {
                assert forall|i: int, j: int| 0 <= i < j < s.len() implies s[i].0 != s[j].0 by {
                    assert(s[i] == attr_view(attrs@[i]));
                    assert(s[j] == attr_view(attrs@[j]));
                }
            }
            assert forall|x: Seq<char>| names.contains(x) <==> !is_other_name(x) by {
                if names.contains(x) {
                    let k = choose|k: int| 0 <= k < names.len() && names[k] == x;
                }
                if x == cn {
                    assert(names[0] == x);
                }
                if x == oc {
                    assert(names[1] == x);
                }
            }
            if lookup(s, cn) is Some {
                lemma_lookup_found(s, cn);
            } else if m.contains_key(cn) {
                let i = choose|i: int| 0 <= i < s.len() && s[i].0 == cn;
                lemma_lookup_absent(s, cn, i);
            }
            lemma_drop_named_members(s, names);
            lemma_drop_named_excludes(s, names);
            let rest = drop_named(s, names);
            if rest.len() == 0 {
                assert forall|k: Seq<char>| m.contains_key(k) implies !is_other_name(k) by {
                    if is_other_name(k) {
                        let j = choose|j: int| 0 <= j < s.len() && s[j].0 == k;
                        assert(rest.contains(s[j]));
                    }
                }
            } else {
                assert(s.contains(rest[0]));
                assert(!names.contains(rest[0].0));
                assert(m.contains_key(rest[0].0));
            }
            assert forall|i: int| 0 <= i < rest.len() implies is_other_name(#[trigger] rest[i].0)
                && m.contains_key(rest[i].0) && m[rest[i].0] == rest[i].1 by {
                assert(s.contains(rest[i]));
                assert(!names.contains(rest[i].0));
            }
            assert forall|k: Seq<char>| m.contains_key(k) && is_other_name(k) implies exists|i: int|
                0 <= i < rest.len() && #[trigger] rest[i].0 == k by {
                let j = choose|j: int| 0 <= j < s.len() && s[j].0 == k;
                assert(rest.contains(s[j]));
                let i = choose|i: int| 0 <= i < rest.len() && rest[i] == s[j];
                assert(rest[i].0 == k);
            }
            if lookup(s, oc) is Some {
                lemma_lookup_found(s, oc);
                let i = choose|i: int|
                    0 <= i < s.len() && s[i].0 == oc && s[i].1 == lookup(s, oc)->Some_0;
                assert(m.contains_key(attrs@[i].0@));
            } else if m.contains_key(oc) {
                let i = choose|i: int| 0 <= i < attrs@.len() && attrs@[i].0@ == oc;
                lemma_lookup_absent(s, oc, i);
            }
        }
        r
    }

    /// Sets the credential where one is given and the object is of class
    /// `user`; leaves the object as it is otherwise.
    pub fn inject_credential(&mut self, password: &Option<String>)
        ensures
            final(self)@ == with_credential(old(self)@, opt_view(*password)),
    {
        if let Some(p) = password {
            let user = String::from_str("user");
            proof {
                reveal_strlit("user");
                assert(user@ =~= user_class());
            }
            if crate::attrs::contains_name(&self.classes, &user) {
                self.password = Some(p.clone());
            }
        }
    }
}

} // verus!
