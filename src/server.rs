//! The directory server to connect to: its name as discovery reports it,
//! and the URL for it.

use vstd::prelude::*;
use vstd::string::StringExecFns;
use crate::text::{chars_of, replace_chars, replaced, string_of};

verus! {

/// A domain controller name as discovery reports it, with every backslash
/// removed (`\\dc1.example.local` becomes `dc1.example.local`).
pub fn domain_controller_name(raw: &str) -> (r: String)
    ensures
        r@ == replaced(raw@, seq!['\\'], seq![]),
{
    let cs = chars_of(raw);
    let mut pat: Vec<char> = Vec::new();
    pat.push('\\');
    let rep: Vec<char> = Vec::new();
    assert(pat@ =~= seq!['\\']);
    assert(rep@ =~= Seq::<char>::empty());
    let out = replace_chars(&cs, &pat, &rep);
    string_of(&out)
}

pub open spec fn url_for(domain: Seq<char>, insecure: bool) -> Seq<char> {
    if insecure {
        seq!['l', 'd', 'a', 'p', ':', '/', '/'] + domain
    } else {
        seq!['l', 'd', 'a', 'p', 's', ':', '/', '/'] + domain
    }
}

/// The URL of the directory server `domain`: `ldap://` where the transport
/// is to be unencrypted, `ldaps://` otherwise.
pub fn ldap_url(domain: &str, insecure: bool) -> (r: String)
    ensures
        r@ == url_for(domain@, insecure),
{
    let mut url = if insecure {
        let u = String::from_str("ldap://");
        proof {
            reveal_strlit("ldap://");
        }
        u
    } else {
        let u = String::from_str("ldaps://");
        proof {
            reveal_strlit("ldaps://");
        }
        u
    };
    url.append(domain);
    proof {
        assert(url@ =~= url_for(domain@, insecure));
    }
    url
}

} // verus!
