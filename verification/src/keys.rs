//! Keystore naming and key-type handling. The keystore itself lives on disk
//! outside this crate; here are the pure rules it follows: which directory to
//! use and what a key file is called.
use crate::claims::KeyType;
use vstd::prelude::*;

verus! {

/// The lower-case name of a key type, as used in key file names.
pub fn keypair_type_to_string(keypair_type: &KeyType) -> (r: String)
    ensures
        keypair_type is Account ==> r@ == "account"@,
        keypair_type is Cluster ==> r@ == "cluster"@,
        keypair_type is Service ==> r@ == "service"@,
        keypair_type is Module ==> r@ == "module"@,
        keypair_type is Server ==> r@ == "server"@,
        keypair_type is Operator ==> r@ == "operator"@,
        keypair_type is User ==> r@ == "user"@,
{
    match keypair_type {
        KeyType::Account => String::from_str("account"),
        KeyType::Cluster => String::from_str("cluster"),
        KeyType::Service => String::from_str("service"),
        KeyType::Module => String::from_str("module"),
        KeyType::Server => String::from_str("server"),
        KeyType::Operator => String::from_str("operator"),
        KeyType::User => String::from_str("user"),
    }
}

/// The file a key pair is stored under: `<subject>_<type>.nk` inside the
/// keystore directory.
pub fn key_file_name(subject: &String, keypair_type: &KeyType) -> (r: String)
    ensures
        r@ == subject@ + "_"@ + spec_type_name(*keypair_type) + ".nk"@,
{
    let t = keypair_type_to_string(keypair_type);
    subject.clone().concat("_").concat(t.as_str()).concat(".nk")
}

/// The name of a key type.
pub open spec fn spec_type_name(t: KeyType) -> Seq<char> {
    match t {
        KeyType::Account => "account"@,
        KeyType::Cluster => "cluster"@,
        KeyType::Service => "service"@,
        KeyType::Module => "module"@,
        KeyType::Server => "server"@,
        KeyType::Operator => "operator"@,
        KeyType::User => "user"@,
    }
}

/// The subject a key file is named for: an account key is shared per user
/// (the login name, with a fixed fallback), any other key belongs to the
/// module it signs.
pub fn key_subject(module_stem: Option<String>, user: Option<String>, keypair_type: &KeyType)
    -> (r: String)
    requires
        keypair_type is Account || module_stem is Some,
    ensures
        (keypair_type is Account && user is Some) ==> r@ == user->0@,
        (keypair_type is Account && user is None) ==> r@ == "user"@,
        !(keypair_type is Account) ==> {
            &&& module_stem matches Some(m) && r@ == m@
        },
{
    match keypair_type {
        KeyType::Account => match user {
            Some(u) => u,
            None => String::from_str("user"),
        },
        _ => match module_stem {
            Some(m) => m,
            None => String::from_str("user"),
        },
    }
}

/// Picks the keystore directory: an explicitly provided directory wins, else
/// the keys folder under the home directory, else nothing (the caller reports
/// the missing home).
pub fn choose_key_directory(provided: Option<String>, home: Option<String>) -> (r: Option<String>)
    ensures
        provided matches Some(d) ==> {
            &&& r matches Some(out) && out@ == d@
        },
        (provided is None && home is Some) ==> {
            &&& r matches Some(out) && out@ == home->0@ + "/.wafl/keys"@
        },
        provided is None && home is None ==> r is None,
{
    match provided {
        Some(d) => Some(d),
        None => match home {
            Some(h) => Some(h.concat("/.wafl/keys")),
            None => None,
        },
    }
}

} // verus!
