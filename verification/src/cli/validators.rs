//! What makes the type of the store and the password valid.

use crate::schemas::DatabaseType;
use crate::text::{chars_of, same_text};
use vstd::prelude::*;
use vstd::string::*;

verus! {

/// Whether `c` is an uppercase letter, as Unicode defines it.
pub uninterp spec fn is_uppercase(c: char) -> bool;

/// Whether `c` is a lowercase letter, as Unicode defines it.
pub uninterp spec fn is_lowercase(c: char) -> bool;

/// Whether `c` is a letter or a number, as Unicode defines it.
pub uninterp spec fn is_alphanumeric(c: char) -> bool;

/// `char::is_uppercase` tells whether the character has the Unicode property
/// `Uppercase`. The contract only gives the answer its name.
#[verifier::external_body]
fn uppercase(c: char) -> (b: bool)
    ensures
        b == is_uppercase(c),
{
    c.is_uppercase()
}

/// `char::is_lowercase` tells whether the character has the Unicode property
/// `Lowercase`. The contract only gives the answer its name.
#[verifier::external_body]
fn lowercase(c: char) -> (b: bool)
    ensures
        b == is_lowercase(c),
{
    c.is_lowercase()
}

/// `char::is_alphanumeric` tells whether the character is alphabetic or
/// numeric by its Unicode properties. The contract only gives the answer its name.
#[verifier::external_body]
fn alphanumeric(c: char) -> (b: bool)
    ensures
        b == is_alphanumeric(c),
{
    c.is_alphanumeric()
}

/// The type of store that a name stands for.
pub open spec fn database_type_of(name: Seq<char>) -> Option<DatabaseType> {
    if name == "STR"@ {
        Some(DatabaseType::Str)
    } else if name == "INT"@ {
        Some(DatabaseType::Int)
    } else if name == "FLOAT"@ {
        Some(DatabaseType::Float)
    } else if name == "BOOL"@ {
        Some(DatabaseType::Bool)
    } else if name == "JSON"@ {
        Some(DatabaseType::Json)
    } else {
        None
    }
}

/// Whether a password is strong enough: at least eight characters, among
/// them an uppercase letter, a lowercase letter, a digit from `0` to `9` and
/// a character that is neither a letter nor a number.
pub open spec fn is_strong(password: Seq<char>) -> bool {
    &&& password.len() >= 8
    &&& exists|i: int| 0 <= i < password.len() && is_uppercase(#[trigger] password[i])
    &&& exists|i: int| 0 <= i < password.len() && is_lowercase(#[trigger] password[i])
    &&& exists|i: int|
        0 <= i < password.len() && '0' as int <= (#[trigger] password[i]) as int <= '9' as int
    &&& exists|i: int| 0 <= i < password.len() && !is_alphanumeric(#[trigger] password[i])
}

/// The type of store that a name stands for, if it stands for one.
pub fn parse_database_type(name: &str) -> (found: Option<DatabaseType>)
    ensures
        found == database_type_of(name@),
{
    if same_text(name, "STR") {
        Some(DatabaseType::Str)
    } else if same_text(name, "INT") {
        Some(DatabaseType::Int)
    } else if same_text(name, "FLOAT") {
        Some(DatabaseType::Float)
    } else if same_text(name, "BOOL") {
        Some(DatabaseType::Bool)
    } else if same_text(name, "JSON") {
        Some(DatabaseType::Json)
    } else {
        None
    }
}

/// The type of store that a valid name stands for.
pub fn validate_database_type(database_type_arg: String) -> (database_type: DatabaseType)
    requires
        database_type_of(database_type_arg@) is Some,
    ensures
        Some(database_type) == database_type_of(database_type_arg@),
{
    match parse_database_type(database_type_arg.as_str()) {
        Some(found) => found,
        None => vstd::pervasive::unreached(),
    }
}

/// Whether a password is strong enough.
pub fn strong_password(password: &str) -> (strong: bool)
    ensures
        strong == is_strong(password@),
{
    let v = chars_of(password);
    let mut upper = false;
    let mut lower = false;
    let mut number = false;
    let mut special = false;
    let mut i: usize = 0;
    while i < v.len()
        invariant
            i <= v.len(),
            v@ == password@,
            upper == exists|j: int| 0 <= j < i && is_uppercase(#[trigger] v@[j]),
            lower == exists|j: int| 0 <= j < i && is_lowercase(#[trigger] v@[j]),
            number == exists|j: int|
                0 <= j < i && '0' as int <= (#[trigger] v@[j]) as int <= '9' as int,
            special == exists|j: int| 0 <= j < i && !is_alphanumeric(#[trigger] v@[j]),
        decreases v.len() - i,
    {
        let c = v[i];
        if uppercase(c) {
            upper = true;
        }
        if lowercase(c) {
            lower = true;
        }
        if '0' <= c && c <= '9' {
            number = true;
        }
        if !alphanumeric(c) {
            special = true;
        }
        i += 1;
    }
    v.len() >= 8 && upper && lower && number && special
}

/// Hands back a password that is strong enough.
pub fn validate_password(password: String) -> (valid: String)
    requires
        is_strong(password@),
    ensures
        valid == password,
{
    password
}

/// Hands back the password if it is strong enough.
pub fn checked_password(password: String) -> (valid: Option<String>)
    ensures
        match valid {
            Some(found) => is_strong(password@) && found == password,
            None => !is_strong(password@),
        },
{
    if strong_password(password.as_str()) {
        Some(validate_password(password))
    } else {
        None
    }
}

} // verus!
