//! Command-line values: the two commands and their options, and the checks
//! on the values that have a required shape.

use vstd::prelude::*;
use vstd::string::{StrSliceExecFns, StringExecFns};
use crate::text::{chars_of, find_chars, occurs_at};

verus! {

/// A target domain: two domain components.
pub const DOMAIN_PATTERN: &'static str = r"^[Dd][Cc]=[\w\-_]+,[Dd][Cc]=[\w\-_]+$";

/// A remap rule: a source name, `=`, a target name.
pub const REMAP_PATTERN: &'static str = r"^([A-Za-z0-9\-_]+)=([A-Za-z0-9\-_]+)$";

/// Whether `pattern` is a valid regular expression that matches `text`.
pub uninterp spec fn regex_accepts(pattern: Seq<char>, text: Seq<char>) -> bool;

/// A character allowed in a remap rule's names: an ASCII letter or digit,
/// `-` or `_`.
pub open spec fn is_name_char(c: char) -> bool {
    (0x41 <= c as u32 <= 0x5a) || (0x61 <= c as u32 <= 0x7a) || (0x30 <= c as u32 <= 0x39)
        || c == '-' || c == '_'
}

pub open spec fn is_rule_name(s: Seq<char>) -> bool {
    s.len() > 0 && forall|i: int| 0 <= i < s.len() ==> is_name_char(#[trigger] s[i])
}

/// Whether `s` is a remap rule: a name, `=`, a name.
pub open spec fn is_remap_rule(s: Seq<char>) -> bool {
    exists|k: Seq<char>, v: Seq<char>|
        is_rule_name(k) && is_rule_name(v) && s == #[trigger] (k + seq!['='] + v)
}

/// Relies on `regex::Regex::new`, which compiles `pattern` or fails, and
/// `regex::Regex::is_match`, which says whether it matches `text`. The
/// remap pattern, anchored at both ends, matches exactly a name of ASCII
/// letters, digits, `-` and `_`, then `=`, then another such name.
#[verifier::external_body]
fn regex_is_match(pattern: &str, text: &str) -> (r: bool)
    ensures
        r == regex_accepts(pattern@, text@),
        pattern@ == REMAP_PATTERN@ ==> (r <==> is_remap_rule(text@)),
{
    match regex::Regex::new(pattern) {
        Ok(re) => re.is_match(text),
        Err(_) => false,
    }
}

/// A command-line value that does not have its required shape.
#[derive(Debug, Clone, Copy, PartialEq, Eq, Structural)]
pub enum ArgsError {
    /// The target domain is not of the form `DC=domain,DC=local`.
    BadDomain,
    /// A remap rule is not of the form `from=to`.
    BadRemap,
}

impl ArgsError {
    pub fn message(&self) -> (r: &'static str)
        ensures
            r == match self {
                ArgsError::BadDomain => "The target domain needs to be in the format of DC=domain,DC=local",
                ArgsError::BadRemap => "Remapping syntax is not correct",
            },
    {
        match self {
            ArgsError::BadDomain => "The target domain needs to be in the format of DC=domain,DC=local",
            ArgsError::BadRemap => "Remapping syntax is not correct",
        }
    }
}

#[derive(Debug, Clone, Copy, PartialEq, Eq, Structural)]
pub enum Scope {
    Base,
    OneLevel,
    SubTree,
}

pub struct ImportArgs {
    pub source_file: String,
    pub control_relaxed: bool,
    pub process_delay: u64,
    pub ignore_properties: Option<Vec<String>>,
    pub remap_properties: Option<Vec<(String, String)>>,
}

pub struct ExportArgs {
    pub ldap_filter: String,
    pub target_file: String,
    pub search_base: String,
    pub search_scope: Scope,
    pub ldap_properties: Vec<String>,
    pub target_domain: Option<String>,
    pub user_password: Option<String>,
}

pub enum Commands {
    Import(ImportArgs),
    Export(ExportArgs),
}

pub struct Args {
    pub command: Commands,
    pub ldap_connection_timeout: u64,
    pub domain_controller: Option<String>,
    pub insecure: bool,
}

/// The import options as read from the command line, remap rules unsplit.
pub struct RawImportArgs {
    pub source_file: String,
    pub control_relaxed: bool,
    pub process_delay: u64,
    pub ignore_properties: Option<Vec<String>>,
    pub remap_properties: Option<Vec<String>>,
}

pub enum RawCommands {
    Import(RawImportArgs),
    Export(ExportArgs),
}

/// The command line as read, before its values are checked.
pub struct RawArgs {
    pub command: RawCommands,
    pub ldap_connection_timeout: u64,
    pub domain_controller: Option<String>,
    pub insecure: bool,
}

/// `s` split at its first `=`.
pub open spec fn splits_at_first_eq(s: Seq<char>, k: Seq<char>, v: Seq<char>) -> bool {
    s == k + seq!['='] + v && !k.contains('=')
}

pub open spec fn rules_ok(raw: Seq<String>) -> bool {
    forall|i: int| 0 <= i < raw.len() ==> is_remap_rule(#[trigger] raw[i]@)
}

/// Checks a target domain: `DC=<name>,DC=<name>`, `DC` in either case.
pub fn check_is_domain(s: &str) -> (r: Result<String, ArgsError>)
    ensures
        r is Ok <==> regex_accepts(DOMAIN_PATTERN@, s@),
        match r {
            Ok(d) => d@ == s@,
            Err(e) => e == ArgsError::BadDomain,
        },
{
    let matched = regex_is_match(DOMAIN_PATTERN, s);
    domain_from(s, matched)
}

/// The target domain `s`, given whether it matched the domain pattern.
pub fn domain_from(s: &str, matched: bool) -> (r: Result<String, ArgsError>)
    ensures
        r is Ok <==> matched,
        match r {
            Ok(d) => d@ == s@,
            Err(e) => e == ArgsError::BadDomain,
        },
{
    if matched {
        Ok(String::from_str(s))
    } else {
        Err(ArgsError::BadDomain)
    }
}

/// Splits a remap rule `from=to` at its first `=`, given whether it matched
/// the rule pattern.
pub fn split_remap_rule(s: &str, matched: bool) -> (r: Result<(String, String), ArgsError>)
    ensures
        r is Ok <==> matched && s@.contains('='),
        match r {
            Ok((k, v)) => splits_at_first_eq(s@, k@, v@),
            Err(e) => e == ArgsError::BadRemap,
        },
{
    if !matched {
        return Err(ArgsError::BadRemap);
    }
    let cs = chars_of(s);
    let mut eq: Vec<char> = Vec::new();
    eq.push('=');
    assert(eq@ =~= seq!['=']);
    match find_chars(&cs, &eq) {
        Some(i) => {
            let n = s.unicode_len();
            let k = String::from_str(s.substring_char(0, i));
            let v = String::from_str(s.substring_char(i + 1, n));
            proof {
                assert(occurs_at(s@, seq!['='], i as int));
                assert(s@.subrange(i as int, i + 1)[0] == '=');
                assert(s@[i as int] == '=');
                assert(s@ =~= k@ + seq!['='] + v@);
                if k@.contains('=') {
                    let j = choose|j: int| 0 <= j < k@.len() && k@[j] == '=';
                    assert(s@.subrange(j, j + 1) =~= seq!['=']);
                    assert(occurs_at(s@, seq!['='], j));
                }
            }
            Ok((k, v))
        },
        None => {
            proof {
                if s@.contains('=') {
                    let j = choose|j: int| 0 <= j < s@.len() && s@[j] == '=';
                    assert(s@.subrange(j, j + 1) =~= seq!['=']);
                    assert(occurs_at(s@, seq!['='], j));
                }
            }
            Err(ArgsError::BadRemap)
        },
    }
}

/// Checks a remap rule `from=to`, each name made of ASCII letters, digits,
/// `-` and `_`, and splits it.
pub fn check_remap_args(s: &str) -> (r: Result<(String, String), ArgsError>)
    ensures
        r is Ok <==> is_remap_rule(s@),
        match r {
            Ok((k, v)) => {
                &&& splits_at_first_eq(s@, k@, v@)
                &&& is_rule_name(k@)
                &&& is_rule_name(v@)
            },
            Err(e) => e == ArgsError::BadRemap,
        },
{
    let matched = regex_is_match(REMAP_PATTERN, s);
    proof {
        if matched {
            let (k0, v0) = choose|k: Seq<char>, v: Seq<char>|
                is_rule_name(k) && is_rule_name(v) && s@ == #[trigger] (k + seq!['='] + v);
            assert(s@[k0.len() as int] == '=');
        }
    }
    let r = split_remap_rule(s, matched);
    proof {
        if r is Ok {
            let k = r->Ok_0.0;
            let v = r->Ok_0.1;
            let (k0, v0) = choose|k: Seq<char>, v: Seq<char>|
                is_rule_name(k) && is_rule_name(v) && s@ == #[trigger] (k + seq!['='] + v);
            assert(!is_name_char('='));
            if k@.len() < k0.len() {
                assert(s@ == k@ + seq!['='] + v@);
                assert((k@ + seq!['='] + v@)[k@.len() as int] == '=');
                assert((k0 + seq!['='] + v0)[k@.len() as int] == k0[k@.len() as int]);
                assert(is_name_char(k0[k@.len() as int]));
                assert(false);
            }
            if k0.len() < k@.len() {
                assert((k0 + seq!['='] + v0)[k0.len() as int] == '=');
                assert((k@ + seq!['='] + v@)[k0.len() as int] == k@[k0.len() as int]);
                assert(k@.contains(k@[k0.len() as int]));
                assert(false);
            }
            assert(k@.len() == k0.len());
            assert forall|j: int| 0 <= j < k0.len() implies k@[j] == k0[j] by {
                assert((k@ + seq!['='] + v@)[j] == k@[j]);
                assert((k0 + seq!['='] + v0)[j] == k0[j]);
            }
            assert(k@ =~= k0);
            assert forall|j: int| 0 <= j < v0.len() implies v@[j] == v0[j] by {
                assert((k@ + seq!['='] + v@)[k0.len() + 1 + j] == v@[j]);
                assert((k0 + seq!['='] + v0)[k0.len() + 1 + j] == v0[j]);
            }
            assert(v@.len() == v0.len());
            assert(v@ =~= v0);
        }
    }
    r
}

/// Checks and splits every remap rule of `raw`.
pub fn check_remap_list(raw: &Vec<String>) -> (r: Result<Vec<(String, String)>, ArgsError>)
    ensures
        r is Ok <==> rules_ok(raw@),
        match r {
            Ok(rules) => rules@.len() == raw@.len() && forall|i: int|
                0 <= i < raw@.len() ==> splits_at_first_eq(
                    raw@[i]@,
                    #[trigger] rules@[i].0@,
                    rules@[i].1@,
                ),
            Err(e) => e == ArgsError::BadRemap,
        },
{
    let mut out: Vec<(String, String)> = Vec::new();
    let mut i: usize = 0;
    while i < raw.len()
        invariant
            i <= raw.len(),
            out@.len() == i,
            forall|j: int| 0 <= j < i ==> is_remap_rule(#[trigger] raw@[j]@),
            forall|j: int|
                0 <= j < i ==> splits_at_first_eq(raw@[j]@, #[trigger] out@[j].0@, out@[j].1@),
        decreases raw.len() - i,
    {
        match check_remap_args(raw[i].as_str()) {
            Ok(p) => out.push(p),
            Err(e) => return Err(e),
        }
        i = i + 1;
    }
    Ok(out)
}

impl Args {
    /// The command line with its values checked: the target domain of an
    /// export must be `DC=<name>,DC=<name>`, and each remap rule of an
    /// import `from=to`, which is split into its two names. Every other
    /// value is kept as it is.
    pub fn parse_args(raw: RawArgs) -> (r: Result<Args, ArgsError>)
        ensures
            r is Ok <==> match raw.command {
                RawCommands::Export(e) => match e.target_domain {
                    Some(t) => regex_accepts(DOMAIN_PATTERN@, t@),
                    None => true,
                },
                RawCommands::Import(i) => match i.remap_properties {
                    Some(rules) => rules_ok(rules@),
                    None => true,
                },
            },
            r matches Ok(a) ==> {
                &&& a.ldap_connection_timeout == raw.ldap_connection_timeout
                &&& a.domain_controller == raw.domain_controller
                &&& a.insecure == raw.insecure
                &&& match (a.command, raw.command) {
                    (Commands::Export(x), RawCommands::Export(y)) => x == y,
                    (Commands::Import(x), RawCommands::Import(y)) => {
                        &&& x.source_file == y.source_file
                        &&& x.control_relaxed == y.control_relaxed
                        &&& x.process_delay == y.process_delay
                        &&& x.ignore_properties == y.ignore_properties
                        &&& x.remap_properties is Some <==> y.remap_properties is Some
                        &&& x.remap_properties matches Some(p) ==> {
                            &&& p@.len() == y.remap_properties->Some_0@.len()
                            &&& forall|j: int|
                                0 <= j < p@.len() ==> splits_at_first_eq(
                                    y.remap_properties->Some_0@[j]@,
                                    #[trigger] p@[j].0@,
                                    p@[j].1@,
                                )
                        }
                    },
                    _ => false,
                }
            },
            r matches Err(e) ==> (e == ArgsError::BadDomain <==> raw.command is Export),
    {
        let command = match raw.command {
            RawCommands::Export(e) => {
                if let Some(t) = &e.target_domain {
                    if let Err(err) = check_is_domain(t.as_str()) {
                        return Err(err);
                    }
                }
                Commands::Export(e)
            },
            RawCommands::Import(i) => {
                let remap_properties = match &i.remap_properties {
                    Some(rules) => match check_remap_list(rules) {
                        Ok(p) => Some(p),
                        Err(err) => return Err(err),
                    },
                    None => None,
                };
                Commands::Import(
                    ImportArgs {
                        source_file: i.source_file,
                        control_relaxed: i.control_relaxed,
                        process_delay: i.process_delay,
                        ignore_properties: i.ignore_properties,
                        remap_properties,
                    },
                )
            },
        };
        Ok(
            Args {
                command,
                ldap_connection_timeout: raw.ldap_connection_timeout,
                domain_controller: raw.domain_controller,
                insecure: raw.insecure,
            },
        )
    }
}

} // verus!
