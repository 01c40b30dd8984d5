//! Player identities: the role rows of type `User` that the player can
//! speak as, and which of them the player currently possesses.

use vstd::prelude::*;
use crate::text::{law_trim_idempotent, trim, trimmed};

verus! {

/// The identity the player speaks as by default, and falls back to.
pub const PLAYER_ROLE_ID: i32 = 0;

/// The persona of a role, carried as its JSON text.
#[derive(Clone, Debug)]
pub struct RoleProfile {
    pub json: String,
}

impl RoleProfile {
    pub fn duplicate(&self) -> (r: RoleProfile)
        ensures
            r.json@ == self.json@,
    {
        RoleProfile { json: self.json.clone() }
    }
}

/// A stored player identity.
#[derive(Clone, Debug)]
pub struct PlayerIdentity {
    pub role_id: i32,
    pub name: String,
    pub profile: RoleProfile,
}

/// One player identity as listed, with whether it is the possessed entity.
#[derive(Clone, Debug)]
pub struct IdentityInfo {
    pub role_id: i32,
    pub name: String,
    pub profile: RoleProfile,
    pub possessed: bool,
}

/// The entity the player currently possesses.
#[derive(Clone, Debug)]
pub struct PossessedInfo {
    pub role_id: i32,
    pub name: String,
    pub subtitle: String,
}

pub open spec fn empty_name_error() -> Seq<char> {
    seq!['身', '份', '名', '称', '不', '能', '为', '空']
}

/// The name an identity is stored under: the given name trimmed, refused
/// with `身份名称不能为空` when nothing is left.
pub fn validate_identity_name(name: &str) -> (r: Result<String, String>)
    ensures
        match r {
            Ok(n) => trimmed(name@).len() > 0 && n@ == trimmed(name@),
            Err(e) => trimmed(name@).len() == 0 && e@ == empty_name_error(),
        },
{
    let t = trim(name);
    if t.as_str().is_empty() {
        proof {
            reveal_strlit("身份名称不能为空");
        }
        assert("身份名称不能为空"@ =~= empty_name_error());
        Err("身份名称不能为空".to_owned())
    } else {
        Ok(t)
    }
}

/// The listing of the player identities: each as stored, flagged as
/// possessed exactly when its id is the possessed one.
pub fn list_identity_infos(identities: &Vec<PlayerIdentity>, possessed_role_id: i32) -> (r: Vec<IdentityInfo>)
    ensures
        r@.len() == identities@.len(),
        forall|i: int|
            0 <= i < r@.len() ==> {
                let info = #[trigger] r@[i];
                let id = identities@[i];
                &&& info.role_id == id.role_id
                &&& info.name@ == id.name@
                &&& info.profile.json@ == id.profile.json@
                &&& info.possessed == (id.role_id == possessed_role_id)
            },
{
    let mut out: Vec<IdentityInfo> = Vec::new();
    let mut i: usize = 0;
    while i < identities.len()
        invariant
            i <= identities@.len(),
            out@.len() == i,
            forall|k: int|
                0 <= k < i ==> {
                    let info = #[trigger] out@[k];
                    let id = identities@[k];
                    &&& info.role_id == id.role_id
                    &&& info.name@ == id.name@
                    &&& info.profile.json@ == id.profile.json@
                    &&& info.possessed == (id.role_id == possessed_role_id)
                },
        decreases identities.len() - i,
    {
        let id = &identities[i];
        out.push(
            IdentityInfo {
                role_id: id.role_id,
                name: id.name.clone(),
                profile: id.profile.duplicate(),
                possessed: id.role_id == possessed_role_id,
            },
        );
        i = i + 1;
    }
    out
}

/// Whether an update of identity `updated_role_id` must be applied to the
/// running session at once: only the possessed identity's name and persona
/// are embedded in it; the others are picked up when next possessed.
pub fn must_resync_after_update(possessed_role_id: i32, updated_role_id: i32) -> (r: bool)
    ensures
        r == (possessed_role_id == updated_role_id),
{
    possessed_role_id == updated_role_id
}

/// After identity `deleted_role_id` was removed (`deleted`), the identity the
/// session must fall back to: the default identity when the removed one was
/// the possessed one, nothing to change otherwise.
pub fn possessed_after_delete(possessed_role_id: i32, deleted_role_id: i32, deleted: bool) -> (r: Option<i32>)
    ensures
        r == (if deleted && possessed_role_id == deleted_role_id { Some(PLAYER_ROLE_ID) } else { None }),
{
    if deleted && possessed_role_id == deleted_role_id {
        Some(PLAYER_ROLE_ID)
    } else {
        None
    }
}


/// A name that was accepted is accepted again unchanged: validating a stored
/// identity name gives back the same name.
pub proof fn law_accepted_name_is_stable(name: Seq<char>)
    requires
        trimmed(name).len() > 0,
    ensures
        trimmed(trimmed(name)).len() > 0,
        trimmed(trimmed(name)) == trimmed(name),
{
    law_trim_idempotent(name);
}
} // verus!
