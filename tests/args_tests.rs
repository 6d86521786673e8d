use ldap_migrate::args::{
    check_is_domain, check_remap_args, domain_from, Args, ArgsError, Commands, ExportArgs, RawArgs,
    RawCommands, RawImportArgs, Scope,
};
use ldap_migrate::server::{domain_controller_name, ldap_url};
use ldap_migrate::text::{find_chars, replace_chars};

fn s(v: &str) -> String {
    v.to_string()
}

fn export_args(target: Option<&str>) -> ExportArgs {
    ExportArgs {
        ldap_filter: s("(objectClass=user)"),
        target_file: s("out.toml"),
        search_base: s("DC=old,DC=local"),
        search_scope: Scope::SubTree,
        ldap_properties: vec![s("sAMAccountName")],
        target_domain: target.map(s),
        user_password: None,
    }
}

fn raw(command: RawCommands) -> RawArgs {
    RawArgs { command, ldap_connection_timeout: 60, domain_controller: None, insecure: false }
}

fn import_args(rules: Option<Vec<&str>>) -> RawImportArgs {
    RawImportArgs {
        source_file: s("in.toml"),
        control_relaxed: false,
        process_delay: 20,
        ignore_properties: Some(vec![s("mail")]),
        remap_properties: rules.map(|v| v.into_iter().map(s).collect()),
    }
}

#[test]
fn domain_check_accepts_two_components() {
    assert_eq!(check_is_domain("DC=new,DC=local"), Ok(s("DC=new,DC=local")));
    assert_eq!(check_is_domain("dc=new-1,Dc=loc_al"), Ok(s("dc=new-1,Dc=loc_al")));
}

#[test]
fn domain_check_rejects_other_shapes() {
    assert_eq!(check_is_domain("DC=new"), Err(ArgsError::BadDomain));
    assert_eq!(check_is_domain("OU=x,DC=new,DC=local"), Err(ArgsError::BadDomain));
    assert_eq!(check_is_domain(""), Err(ArgsError::BadDomain));
}

#[test]
fn remap_check_splits_rule() {
    assert_eq!(check_remap_args("givenName=sn"), Ok((s("givenName"), s("sn"))));
    assert_eq!(check_remap_args("a-b_1=C_2-d"), Ok((s("a-b_1"), s("C_2-d"))));
}

#[test]
fn remap_check_rejects_bad_rules() {
    assert_eq!(check_remap_args("givenName"), Err(ArgsError::BadRemap));
    assert_eq!(check_remap_args("a=b=c"), Err(ArgsError::BadRemap));
    assert_eq!(check_remap_args("=b"), Err(ArgsError::BadRemap));
    assert_eq!(check_remap_args("a b=c"), Err(ArgsError::BadRemap));
}

#[test]
fn parse_args_splits_remap_rules() {
    let a = Args::parse_args(raw(RawCommands::Import(import_args(Some(vec!["a=b", "c=d"])))))
        .ok()
        .unwrap();
    assert_eq!(a.ldap_connection_timeout, 60);
    match a.command {
        Commands::Import(i) => {
            assert_eq!(i.remap_properties, Some(vec![(s("a"), s("b")), (s("c"), s("d"))]));
            assert_eq!(i.ignore_properties, Some(vec![s("mail")]));
            assert_eq!(i.process_delay, 20);
        }
        Commands::Export(_) => panic!("expected an import"),
    }
}

#[test]
fn parse_args_rejects_bad_rule() {
    let r = Args::parse_args(raw(RawCommands::Import(import_args(Some(vec!["a=b", "oops"])))));
    assert_eq!(r.err(), Some(ArgsError::BadRemap));
}

#[test]
fn parse_args_checks_target_domain() {
    let ok = Args::parse_args(raw(RawCommands::Export(export_args(Some("DC=new,DC=local")))));
    assert!(ok.is_ok());
    let none = Args::parse_args(raw(RawCommands::Export(export_args(None))));
    assert!(none.is_ok());
    let bad = Args::parse_args(raw(RawCommands::Export(export_args(Some("new.local")))));
    assert_eq!(bad.err(), Some(ArgsError::BadDomain));
}

#[test]
fn error_messages() {
    assert_eq!(
        ArgsError::BadDomain.message(),
        "The target domain needs to be in the format of DC=domain,DC=local"
    );
    assert_eq!(ArgsError::BadRemap.message(), "Remapping syntax is not correct");
}

#[test]
fn domain_controller_name_drops_backslashes() {
    assert_eq!(domain_controller_name("\\\\dc1.example.local"), "dc1.example.local");
    assert_eq!(domain_controller_name("dc1"), "dc1");
}

#[test]
fn url_scheme_follows_transport() {
    assert_eq!(ldap_url("dc1.example.local", true), "ldap://dc1.example.local");
    assert_eq!(ldap_url("dc1.example.local", false), "ldaps://dc1.example.local");
}

#[test]
fn find_and_replace_on_chars() {
    let t: Vec<char> = "abcabc".chars().collect();
    let p: Vec<char> = "bc".chars().collect();
    assert_eq!(find_chars(&t, &p), Some(1));
    assert_eq!(find_chars(&t, &vec!['z']), None);
    let r: Vec<char> = replace_chars(&t, &p, &vec!['X']);
    assert_eq!(r.into_iter().collect::<String>(), "aXaX");
    let r: Vec<char> = replace_chars(&vec!['a', 'a', 'a'], &vec!['a', 'a'], &vec!['b']);
    assert_eq!(r, vec!['b', 'a']);
}

#[test]
fn domain_from_follows_match_result() {
    assert_eq!(domain_from("DC=a,DC=b", true), Ok(s("DC=a,DC=b")));
    assert_eq!(domain_from("DC=a,DC=b", false), Err(ArgsError::BadDomain));
}
