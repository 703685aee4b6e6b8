//! Naming rules for reusable vault entries.
use vstd::prelude::*;
use crate::text::{ends_with, lower_seq, lower_vec, range_ends_with, to_chars, owned};

verus! {

/// Whether a vault name is reserved: macros refer to fields as
/// `<name>.username` / `<name>.password`, so a name ending in either suffix
/// (ignoring ASCII case) would be ambiguous.
pub open spec fn reserved_name(name: Seq<char>) -> bool {
    ends_with(lower_seq(name), ".username"@) || ends_with(lower_seq(name), ".password"@)
}

/// The message returned for a reserved vault name.
pub open spec fn reserved_message() -> Seq<char> {
    "vault name can't end in '.username' or '.password' (reserved for macro field references)"@
}

/// `Some(message)` exactly when `name` is reserved.
pub fn reserved_name_error(name: &str) -> (r: Option<String>)
    ensures
        r is Some <==> reserved_name(name@),
        r matches Some(m) ==> m@ == reserved_message(),
{
    let lower = lower_vec(&to_chars(name));
    let n = lower.len();
    if range_ends_with(&lower, 0, n, &to_chars(".username"))
        || range_ends_with(&lower, 0, n, &to_chars(".password")) {
        assert(lower@.subrange(0, n as int) =~= lower@);
        return Some(
            owned(
                "vault name can't end in '.username' or '.password' (reserved for macro field references)",
            ),
        );
    }
    assert(lower@.subrange(0, n as int) =~= lower@);
    None
}

/// Which field of a vault entry a macro sends.
#[derive(Debug, Clone, Copy, PartialEq, Eq, Structural)]
pub enum VaultField {
    Username,
    Password,
}

/// The field a macro names (any ASCII case), or the error for another.
pub fn vault_field(field: &str) -> (r: Result<VaultField, crate::model::AppError>)
    ensures
        lower_seq(field@) == "password"@ ==> r == Ok::<VaultField, crate::model::AppError>(VaultField::Password),
        lower_seq(field@) == "username"@ ==> r == Ok::<VaultField, crate::model::AppError>(VaultField::Username),
        lower_seq(field@) != "password"@ && lower_seq(field@) != "username"@ ==> (r matches Err(
            crate::model::AppError::Internal(m),
        ) && m@ == "unknown vault field '"@ + lower_seq(field@) + "' (expected Username or Password)"@),
{
    let l = lower_vec(&to_chars(field));
    proof {
        reveal_strlit("password");
        reveal_strlit("username");
        assert("password"@[0] != "username"@[0]);
    }
    if crate::text::chars_eq(&l, &to_chars("password")) {
        return Ok(VaultField::Password);
    }
    if crate::text::chars_eq(&l, &to_chars("username")) {
        return Ok(VaultField::Username);
    }
    let mut m = owned("unknown vault field '");
    let ls = crate::text::string_from_chars(&l);
    crate::text::push_str(&mut m, ls.as_str());
    crate::text::push_str(&mut m, "' (expected Username or Password)");
    Err(crate::model::AppError::Internal(m))
}

/// The bytes typed into a session for a secret: the secret, and a carriage
/// return when `enter` is asked for.
pub fn typed_bytes(secret: Vec<u8>, enter: bool) -> (r: Vec<u8>)
    ensures
        r@ == (if enter {
            secret@.push(13u8)
        } else {
            secret@
        }),
{
    let mut b = secret;
    if enter {
        b.push(13u8);
    }
    b
}

} // verus!
