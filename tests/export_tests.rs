use std::collections::HashMap;

use ldap_migrate::export::{domain_suffix_of, finish_export, requested_attributes, rewrite_domain};
use ldap_migrate::object::{EntryError, ExportToml, LdapObject};

fn s(v: &str) -> String {
    v.to_string()
}

fn user_object(dn: &str) -> LdapObject {
    LdapObject {
        dn: s(dn),
        cn: Some(s("x")),
        classes: vec![s("top"), s("user")],
        password: None,
        attrs: None,
    }
}

#[test]
fn requested_attributes_adds_mandatory_names() {
    let r = requested_attributes(&vec![s("sAMAccountName")]);
    assert_eq!(r, vec![s("objectClass"), s("cn"), s("sAMAccountName")]);
}

#[test]
fn requested_attributes_collapses_duplicates() {
    let r = requested_attributes(&vec![s("cn"), s("mail"), s("objectClass"), s("mail")]);
    assert_eq!(r, vec![s("objectClass"), s("cn"), s("mail")]);
}

#[test]
fn requested_attributes_of_empty_list() {
    let r = requested_attributes(&vec![]);
    assert_eq!(r, vec![s("objectClass"), s("cn")]);
}

#[test]
fn domain_suffix_from_first_marker() {
    assert_eq!(domain_suffix_of("CN=x,OU=y,DC=old,DC=local"), ",DC=old,DC=local");
    assert_eq!(domain_suffix_of("CN=x,OU=y"), "");
    assert_eq!(domain_suffix_of("CN=x,dc=lower"), "");
}

#[test]
fn rewrite_replaces_every_occurrence() {
    let doc = "dn = \"CN=x,OU=y,DC=old,DC=local\"\nother = \"CN=z,DC=old,DC=local\"\n";
    let r = rewrite_domain(doc, "CN=x,OU=y,DC=old,DC=local", "DC=new,DC=local");
    assert_eq!(
        r,
        "dn = \"CN=x,OU=y,DC=new,DC=local\"\nother = \"CN=z,DC=new,DC=local\"\n"
    );
}

#[test]
fn rewrite_also_hits_unrelated_values() {
    let doc = "a = \"CN=x,DC=old,DC=local\"\nnote = \"see ,DC=old,DC=local\"\n";
    let r = rewrite_domain(doc, "CN=x,DC=old,DC=local", "DC=new,DC=local");
    assert_eq!(r, "a = \"CN=x,DC=new,DC=local\"\nnote = \"see ,DC=new,DC=local\"\n");
}

#[test]
fn rewrite_with_empty_suffix_inserts_everywhere() {
    let r = rewrite_domain("ab", "CN=x", "DC=n");
    assert_eq!(r, ",DC=na,DC=nb,DC=n");
}

#[test]
fn finish_export_of_empty_snapshot_writes_nothing() {
    let r = finish_export(&vec![], "objects = []\n", &Some(s("DC=new,DC=local")));
    assert!(r.is_none());
}

#[test]
fn finish_export_rewrites_with_target() {
    let objs = vec![user_object("CN=x,OU=y,DC=old,DC=local")];
    let doc = "dn = \"CN=x,OU=y,DC=old,DC=local\"\n";
    let r = finish_export(&objs, doc, &Some(s("DC=new,DC=local")));
    assert_eq!(r, Some(s("dn = \"CN=x,OU=y,DC=new,DC=local\"\n")));
    let r = finish_export(&objs, doc, &None);
    assert_eq!(r, Some(s(doc)));
}

#[test]
fn from_parts_hoists_cn_and_classes() {
    let attrs = vec![
        (s("objectClass"), vec![s("top"), s("person")]),
        (s("sn"), vec![s("Doe")]),
        (s("cn"), vec![s("John"), s("J")]),
        (s("mail"), vec![s("a@b"), s("c@d")]),
    ];
    let o = LdapObject::from_parts(s("CN=John,DC=x"), &attrs).unwrap();
    assert_eq!(o.dn, "CN=John,DC=x");
    assert_eq!(o.cn, Some(s("John")));
    assert_eq!(o.classes, vec![s("top"), s("person")]);
    assert_eq!(o.password, None);
    assert_eq!(
        o.attrs,
        Some(vec![(s("sn"), vec![s("Doe")]), (s("mail"), vec![s("a@b"), s("c@d")])])
    );
}

#[test]
fn from_parts_without_other_attributes() {
    let attrs = vec![(s("cn"), vec![]), (s("objectClass"), vec![s("top")])];
    let o = LdapObject::from_parts(s("CN=a"), &attrs).unwrap();
    assert_eq!(o.cn, None);
    assert_eq!(o.attrs, None);
}

#[test]
fn from_parts_without_object_class_fails() {
    let attrs = vec![(s("cn"), vec![s("a")])];
    let r = LdapObject::from_parts(s("CN=a"), &attrs);
    assert_eq!(r.unwrap_err(), EntryError::MissingObjectClass);
}

#[test]
fn try_from_search_entry() {
    let mut attrs = HashMap::new();
    attrs.insert(s("objectClass"), vec![s("top"), s("user")]);
    attrs.insert(s("cn"), vec![s("u1")]);
    attrs.insert(s("sn"), vec![s("One")]);
    let entry = ldap3::SearchEntry { dn: s("CN=u1,DC=a,DC=b"), attrs, bin_attrs: HashMap::new() };
    let o = LdapObject::try_from(entry).unwrap();
    assert_eq!(o.dn, "CN=u1,DC=a,DC=b");
    assert_eq!(o.cn, Some(s("u1")));
    assert_eq!(o.classes, vec![s("top"), s("user")]);
    assert_eq!(o.attrs, Some(vec![(s("sn"), vec![s("One")])]));

    let mut attrs = HashMap::new();
    attrs.insert(s("cn"), vec![s("u1")]);
    let entry = ldap3::SearchEntry { dn: s("CN=u1"), attrs, bin_attrs: HashMap::new() };
    assert_eq!(LdapObject::try_from(entry).unwrap_err(), EntryError::MissingObjectClass);
}

#[test]
fn credential_only_for_user_objects() {
    let mut user = user_object("CN=u,DC=a");
    user.inject_credential(&Some(s("pw")));
    assert_eq!(user.password, Some(s("pw")));

    let mut group = user_object("CN=g,DC=a");
    group.classes = vec![s("top"), s("group")];
    group.inject_credential(&Some(s("pw")));
    assert_eq!(group.password, None);

    let mut other = user_object("CN=u2,DC=a");
    other.inject_credential(&None);
    assert_eq!(other.password, None);
}

#[test]
fn snapshot_from_objects_keeps_order() {
    let t = ExportToml::from(vec![user_object("CN=a"), user_object("CN=b")]);
    assert_eq!(t.objects.len(), 2);
    assert_eq!(t.objects[0].dn, "CN=a");
    assert_eq!(t.objects[1].dn, "CN=b");
}

#[test]
fn try_from_entry_with_several_cn_values() {
    let mut attrs = HashMap::new();
    attrs.insert(s("cn"), vec![s("x"), s("y")]);
    attrs.insert(s("objectClass"), vec![s("top"), s("user")]);
    attrs.insert(s("sn"), vec![s("Doe")]);
    let entry = ldap3::SearchEntry { dn: s("CN=x,DC=a,DC=b"), attrs, bin_attrs: HashMap::new() };
    let o = LdapObject::try_from(entry).unwrap();
    assert_eq!(o.dn, "CN=x,DC=a,DC=b");
    assert_eq!(o.cn, Some(s("x")));
    assert_eq!(o.classes, vec![s("top"), s("user")]);
    assert_eq!(o.password, None);
    assert_eq!(o.attrs, Some(vec![(s("sn"), vec![s("Doe")])]));
}

#[test]
fn try_from_entry_with_empty_cn_and_no_other_attrs() {
    let mut attrs = HashMap::new();
    attrs.insert(s("objectClass"), vec![s("group")]);
    attrs.insert(s("cn"), vec![]);
    let entry = ldap3::SearchEntry { dn: s("CN=g,DC=a,DC=b"), attrs, bin_attrs: HashMap::new() };
    let o = LdapObject::try_from(entry).unwrap();
    assert_eq!(o.cn, None);
    assert_eq!(o.classes, vec![s("group")]);
    assert_eq!(o.password, None);
    assert_eq!(o.attrs, None);
}
