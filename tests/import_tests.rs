use ldap_migrate::import::{
    password_bytes, plan_object, prepare_attrs, take_account_control, ImportRun, Outcome,
    RemapTable, Report, Stage,
};
use ldap_migrate::object::LdapObject;

fn s(v: &str) -> String {
    v.to_string()
}

fn table(rules: &[(&str, &str)]) -> RemapTable {
    RemapTable::new(rules.iter().map(|(a, b)| (s(a), s(b))).collect())
}

#[test]
fn ignored_name_never_reaches_remap() {
    let attrs = vec![(s("mail"), vec![s("a@b")]), (s("sn"), vec![s("Doe")])];
    let r = prepare_attrs(&attrs, &vec![s("mail")], &table(&[("mail", "proxyAddresses")]));
    assert_eq!(r, vec![(s("sn"), vec![s("Doe")])]);
}

#[test]
fn remap_renames_and_keeps_values() {
    let attrs = vec![(s("givenName"), vec![s("J"), s("K")]), (s("sn"), vec![s("Doe")])];
    let r = prepare_attrs(&attrs, &vec![], &table(&[("givenName", "displayName")]));
    assert_eq!(r, vec![(s("displayName"), vec![s("J"), s("K")]), (s("sn"), vec![s("Doe")])]);
}

#[test]
fn later_remap_rule_wins() {
    let t = table(&[("a", "b"), ("a", "c")]);
    assert_eq!(t.target(&s("a")), Some(s("c")));
    assert_eq!(t.target(&s("z")), None);
}

#[test]
fn no_matches_leave_attrs_unchanged() {
    let attrs = vec![(s("mail"), vec![s("a@b")]), (s("sn"), vec![s("Doe")])];
    let r = prepare_attrs(&attrs, &vec![s("telephoneNumber")], &table(&[("title", "job")]));
    assert_eq!(r, attrs);
}

#[test]
fn password_is_quoted_utf16_le() {
    assert_eq!(password_bytes("ab"), vec![0x22, 0, 0x61, 0, 0x62, 0, 0x22, 0]);
    assert_eq!(password_bytes(""), vec![0x22, 0, 0x22, 0]);
    assert_eq!(password_bytes("é"), vec![0x22, 0, 0xE9, 0, 0x22, 0]);
    let expected: Vec<u8> =
        "\"P\u{1F600}\"".encode_utf16().flat_map(|u| u.to_le_bytes()).collect();
    assert_eq!(password_bytes("P\u{1F600}"), expected);
}

#[test]
fn account_control_taken_from_attrs() {
    let mut attrs = vec![(s("userAccountControl"), vec![s("514")]), (s("sn"), vec![s("Doe")])];
    let v = take_account_control(&mut attrs);
    assert_eq!(v, vec![s("514")]);
    assert_eq!(attrs, vec![(s("sn"), vec![s("Doe")])]);
}

#[test]
fn account_control_defaults_to_normal() {
    let mut attrs = vec![(s("sn"), vec![s("Doe")])];
    let v = take_account_control(&mut attrs);
    assert_eq!(v, vec![s("512")]);
    assert_eq!(attrs, vec![(s("sn"), vec![s("Doe")])]);
}

fn object(password: Option<&str>, attrs: Option<Vec<(String, Vec<String>)>>) -> LdapObject {
    LdapObject {
        dn: s("CN=u,DC=a,DC=b"),
        cn: Some(s("u")),
        classes: vec![s("top"), s("user")],
        password: password.map(s),
        attrs,
    }
}

#[test]
fn plan_with_credential_moves_account_control() {
    let o = object(
        Some("pw"),
        Some(vec![(s("userAccountControl"), vec![s("514")]), (s("sn"), vec![s("Doe")])]),
    );
    let p = plan_object(&o, &vec![], &table(&[]), true);
    assert_eq!(p.dn, "CN=u,DC=a,DC=b");
    assert_eq!(p.classes, vec![s("top"), s("user")]);
    let c = p.credential.unwrap();
    assert_eq!(c.account_control, vec![s("514")]);
    assert_eq!(c.password, vec![0x22, 0, 0x70, 0, 0x77, 0, 0x22, 0]);
    assert_eq!(p.attributes, Some(vec![(s("sn"), vec![s("Doe")])]));
    assert!(p.relaxed);
}

#[test]
fn plan_with_credential_defaults_account_control() {
    let o = object(Some("pw"), None);
    let p = plan_object(&o, &vec![], &table(&[]), false);
    assert_eq!(p.credential.unwrap().account_control, vec![s("512")]);
    assert_eq!(p.attributes, None);
}

#[test]
fn plan_without_credential_keeps_account_control() {
    let o = object(None, Some(vec![(s("userAccountControl"), vec![s("514")])]));
    let p = plan_object(&o, &vec![], &table(&[]), false);
    assert!(p.credential.is_none());
    assert_eq!(p.attributes, Some(vec![(s("userAccountControl"), vec![s("514")])]));
}

#[test]
fn plan_remaps_into_account_control() {
    let o = object(Some("pw"), Some(vec![(s("uac"), vec![s("66048")])]));
    let p = plan_object(&o, &vec![], &table(&[("uac", "userAccountControl")]), false);
    assert_eq!(p.credential.unwrap().account_control, vec![s("66048")]);
    assert_eq!(p.attributes, None);
}

#[test]
fn refused_modify_does_not_stop_run() {
    let mut run = ImportRun::new(2);
    assert!(run.has_next());
    assert_eq!(run.record(Stage::Create, Outcome::Code(0)), Report::Done);
    assert_eq!(run.record(Stage::Credential, Outcome::Code(53)), Report::Failed);
    assert_eq!(run.record(Stage::Attributes, Outcome::Code(19)), Report::Failed);
    run.finish_object();
    assert!(run.has_next());
    assert_eq!(run.record(Stage::Create, Outcome::Code(68)), Report::Quiet);
    run.finish_object();
    assert!(!run.has_next());
    assert_eq!(run.processed, 2);
}

#[test]
fn transport_failure_stops_run() {
    let mut run = ImportRun::new(3);
    assert_eq!(run.record(Stage::Attributes, Outcome::Transport), Report::Abort);
    assert!(run.aborted);
    assert!(!run.has_next());
}

#[test]
fn empty_snapshot_processes_nothing() {
    let run = ImportRun::new(0);
    assert!(!run.has_next());
    assert_eq!(run.processed, 0);
}
