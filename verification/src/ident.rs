//! The identity resolver: a stable, versioned, user-scoped key for one
//! logical application instance.
//!
//! The same name, version and user always give the same key, and — as long
//! as name and version contain no underscore, which the separator reserves —
//! different triples give different keys, so upgraded builds never contend
//! with old instances. The invoking user's name comes from the environment;
//! the embedding program reads it and hands it in as a plain value, and an
//! absent or empty value fails fast here rather than silently defaulting.

use vstd::prelude::*;
use vstd::string::{StringExecFns, StrSliceExecFns};

verus! {

/// One logical application instance: application name, build version, and
/// the invoking user.
#[derive(Debug, Clone, PartialEq)]
pub struct Identity {
    pub name: String,
    pub version: String,
    pub user: String,
}

/// Mathematical value of an `Identity`.
#[verifier::ext_equal]
pub struct IdentityView {
    pub name: Seq<char>,
    pub version: Seq<char>,
    pub user: Seq<char>,
}

impl View for Identity {
    type V = IdentityView;

    open spec fn view(&self) -> IdentityView {
        IdentityView { name: self.name@, version: self.version@, user: self.user@ }
    }
}

/// The canonical string key of an identity: name, version and user joined
/// by underscores.
pub open spec fn spec_key(v: IdentityView) -> Seq<char> {
    v.name + seq!['_'] + v.version + seq!['_'] + v.user
}

/// The socket name derived from an identity: its key with a fixed suffix.
pub open spec fn spec_socket_name(v: IdentityView) -> Seq<char> {
    spec_key(v) + ".sock"@
}

/// The environment offered no usable user name; fatal at startup, before
/// any socket state exists.
#[derive(Debug, Clone, PartialEq)]
pub enum IdentityError {
    UserUnavailable,
}

impl IdentityError {
    /// A descriptive message for the startup report.
    pub fn message(&self) -> (r: String)
        ensures
            r@ == "the current user's name is not available in the environment"@,
    {
        String::from_str("the current user's name is not available in the environment")
    }
}

/// Accept the user name read from the environment, or fail fast when it is
/// unset or empty.
pub fn resolve_user(raw: Option<String>) -> (r: Result<String, IdentityError>)
    ensures
        match r {
            Ok(u) => raw matches Some(u2) && u2@ == u@ && u@.len() > 0,
            Err(e) => (raw is None || (raw matches Some(u2) && u2@.len() == 0)) && e
                == IdentityError::UserUnavailable,
        },
{
    match raw {
        Some(u) => {
            if u.as_str().unicode_len() == 0 {
                Err(IdentityError::UserUnavailable)
            } else {
                Ok(u)
            }
        },
        None => Err(IdentityError::UserUnavailable),
    }
}

impl Identity {
    /// Build an identity from its three parts.
    pub fn new(name: String, version: String, user: String) -> (r: Identity)
        ensures
            r@ == (IdentityView { name: name@, version: version@, user: user@ }),
    {
        Identity { name, version, user }
    }

    /// The canonical string key. Pure and deterministic: the same identity
    /// always yields the same key.
    pub fn key(&self) -> (r: String)
        ensures
            r@ == spec_key(self@),
    {
        let mut k = self.name.clone();
        k.append("_");
        k.append(self.version.as_str());
        k.append("_");
        k.append(self.user.as_str());
        proof {
            reveal_strlit("_");
            assert("_"@ =~= seq!['_']);
            assert(k@ =~= spec_key(self@));
        }
        k
    }

    /// The listener endpoint name derived from the key.
    pub fn socket_name(&self) -> (r: String)
        ensures
            r@ == spec_socket_name(self@),
    {
        let mut k = self.key();
        k.append(".sock");
        k
    }
}

/// The key of a name/version/user triple, as the applications build it.
pub fn app_id(name: &str, version: &str, user: &str) -> (r: String)
    ensures
        r@ == spec_key(IdentityView { name: name@, version: version@, user: user@ }),
{
    let id = Identity {
        name: String::from_str(name),
        version: String::from_str(version),
        user: String::from_str(user),
    };
    id.key()
}

/// The identity key is injective on triples whose name and version avoid
/// the underscore separator: a different name, version or user always gives
/// a different key, so no two distinct instances (or versions) ever share a
/// lock name or an endpoint.
pub proof fn lemma_key_injective(a: IdentityView, b: IdentityView)
    requires
        !a.name.contains('_'),
        !a.version.contains('_'),
        !b.name.contains('_'),
        !b.version.contains('_'),
        spec_key(a) == spec_key(b),
    ensures
        a == b,
{
    let k = spec_key(a);
    let na = a.name.len() as int;
    let nb = b.name.len() as int;
    // The first underscore ends the name on both readings.
    assert(k[na] == '_');
    assert(k[nb] == '_');
    if na < nb {
        assert(k[na] == b.name[na]);
        assert(b.name.contains('_'));
        assert(false);
    }
    if nb < na {
        assert(k[nb] == a.name[nb]);
        assert(a.name.contains('_'));
        assert(false);
    }
    assert(a.name =~= b.name) by {
        assert forall|j: int| 0 <= j < na implies a.name[j] == b.name[j] by {
            assert(k[j] == a.name[j]);
            assert(k[j] == b.name[j]);
        }
    }
    // The second underscore ends the version on both readings.
    let va = a.version.len() as int;
    let vb = b.version.len() as int;
    assert(k[na + 1 + va] == '_');
    assert(k[na + 1 + vb] == '_');
    if va < vb {
        assert(k[na + 1 + va] == b.version[va]);
        assert(b.version.contains('_'));
        assert(false);
    }
    if vb < va {
        assert(k[na + 1 + vb] == a.version[vb]);
        assert(a.version.contains('_'));
        assert(false);
    }
    assert(a.version =~= b.version) by {
        assert forall|j: int| 0 <= j < va implies a.version[j] == b.version[j] by {
            assert(k[na + 1 + j] == a.version[j]);
            assert(k[na + 1 + j] == b.version[j]);
        }
    }
    // What remains after the second underscore is the user on both readings.
    assert(a.user =~= b.user) by {
        assert(k.len() == na + 1 + va + 1 + a.user.len());
        assert(spec_key(b).len() == nb + 1 + vb + 1 + b.user.len());
        assert(a.user.len() == b.user.len());
        assert forall|j: int| 0 <= j < a.user.len() implies a.user[j] == b.user[j] by {
            assert(k[na + 1 + va + 1 + j] == a.user[j]);
            assert(k[na + 1 + va + 1 + j] == b.user[j]);
        }
    }
    assert(a =~= b);
}

} // verus!
