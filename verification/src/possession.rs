//! Possession: the player speaks as an entity of the unified entity model.
//! Possessing changes only the session (who is possessed, who is present,
//! who speaks next), never whether the entity is an AI.

use vstd::prelude::*;
use crate::identity::PLAYER_ROLE_ID;
use crate::types::{GameLine, LineAttribute};

verus! {

/// The roles a session tracks for possession.
#[derive(Clone, Debug)]
pub struct SessionRoles {
    /// The entity the player speaks as.
    pub possessed_role_id: i32,
    /// The entities present, each once, in the session's order.
    pub present_role_ids: Vec<i32>,
    /// The entity the conversation currently addresses.
    pub current_role_id: Option<i32>,
}

impl SessionRoles {
    /// Each present entity is listed once.
    pub open spec fn wf(&self) -> bool {
        self.present_role_ids@.no_duplicates()
    }
}

/// The first entity of `present` other than `role_id`.
pub open spec fn first_other(present: Seq<i32>, role_id: i32) -> Option<i32>
    decreases present.len(),
{
    if present.len() == 0 {
        None
    } else if present[0] != role_id {
        Some(present[0])
    } else {
        first_other(present.drop_first(), role_id)
    }
}

/// Whom the conversation turns to when it addressed the entity just
/// possessed (it would talk to itself): the default identity, which an AI
/// may voice, unless that is the entity possessed; then the first other
/// present entity, if any.
pub open spec fn fallback_speaker(present: Seq<i32>, role_id: i32) -> Option<i32> {
    if role_id != PLAYER_ROLE_ID {
        Some(PLAYER_ROLE_ID)
    } else {
        first_other(present, role_id)
    }
}

/// The first entity of `present` other than `role_id`, if any.
fn find_other(present: &Vec<i32>, role_id: i32) -> (r: Option<i32>)
    ensures
        r == first_other(present@, role_id),
{
    let mut i: usize = 0;
    assert(present@.skip(0) =~= present@);
    while i < present.len()
        invariant
            i <= present@.len(),
            first_other(present@, role_id) == first_other(present@.skip(i as int), role_id),
        decreases present.len() - i,
    {
        if present[i] != role_id {
            return Some(present[i]);
        }
        assert(present@.skip(i as int).drop_first() =~= present@.skip(i + 1));
        i = i + 1;
    }
    None
}

/// Makes the player possess `role_id`: it becomes the possessed entity and
/// present (appended when absent; it is not put on stage), and when the
/// conversation addressed it, the conversation turns to `fallback_speaker`.
pub fn possess_entity(session: &mut SessionRoles, role_id: i32)
    ensures
        old(session).wf() ==> final(session).wf(),
        final(session).possessed_role_id == role_id,
        final(session).present_role_ids@ == if old(session).present_role_ids@.contains(role_id) {
            old(session).present_role_ids@
        } else {
            old(session).present_role_ids@.push(role_id)
        },
        final(session).current_role_id == if old(session).current_role_id == Some(role_id) {
            fallback_speaker(final(session).present_role_ids@, role_id)
        } else {
            old(session).current_role_id
        },
{
    session.possessed_role_id = role_id;
    let mut present = false;
    let mut i: usize = 0;
    while i < session.present_role_ids.len() && !present
        invariant
            i <= session.present_role_ids@.len(),
            present ==> session.present_role_ids@.contains(role_id),
            !present ==> forall|j: int| 0 <= j < i ==> session.present_role_ids@[j] != role_id,
        decreases session.present_role_ids.len() - i,
    {
        if session.present_role_ids[i] == role_id {
            assert(session.present_role_ids@[i as int] == role_id);
            present = true;
        }
        i = i + 1;
    }
    if !present {
        let ghost before = session.present_role_ids@;
        session.present_role_ids.push(role_id);
        assert(before.no_duplicates() ==> session.present_role_ids@.no_duplicates()) by {
            if before.no_duplicates() {
                assert forall|a: int, b: int|
                    0 <= a < session.present_role_ids@.len() && 0 <= b < session.present_role_ids@.len() && a != b
                        implies session.present_role_ids@[a] != session.present_role_ids@[b] by {
                    if a < before.len() && b < before.len() {
                        assert(session.present_role_ids@[a] == before[a]);
                        assert(session.present_role_ids@[b] == before[b]);
                    } else if a < before.len() {
                        assert(session.present_role_ids@[a] == before[a]);
                    } else {
                        assert(session.present_role_ids@[b] == before[b]);
                    }
                }
            }
        }
    }
    if session.current_role_id == Some(role_id) {
        let fallback = if role_id != PLAYER_ROLE_ID {
            Some(PLAYER_ROLE_ID)
        } else {
            find_other(&session.present_role_ids, role_id)
        };
        session.current_role_id = fallback;
    }
}

/// The persona (`System`) lines that name a sender, in order: each line's
/// position and its sender. A persona line without a sender is left as it is.
pub fn persona_lines(lines: &[GameLine]) -> (r: Vec<(usize, i32)>)
    ensures
        forall|k: int|
            0 <= k < r@.len() ==> {
                let (i, sender) = #[trigger] r@[k];
                &&& i < lines@.len()
                &&& lines@[i as int].base.attribute.0 == LineAttribute::System
                &&& lines@[i as int].base.sender_role_id == Some(sender)
            },
        forall|k: int, l: int| 0 <= k < l < r@.len() ==> r@[k].0 < r@[l].0,
        forall|i: int|
            0 <= i < lines@.len() && (#[trigger] lines@[i]).base.attribute.0 == LineAttribute::System
                && lines@[i].base.sender_role_id is Some ==> exists|k: int| 0 <= k < r@.len() && r@[k].0 == i,
{
    let mut out: Vec<(usize, i32)> = Vec::new();
    let mut i: usize = 0;
    while i < lines.len()
        invariant
            i <= lines@.len(),
            forall|k: int|
                0 <= k < out@.len() ==> {
                    let (j, sender) = #[trigger] out@[k];
                    &&& j < i
                    &&& lines@[j as int].base.attribute.0 == LineAttribute::System
                    &&& lines@[j as int].base.sender_role_id == Some(sender)
                },
            forall|k: int, l: int| 0 <= k < l < out@.len() ==> out@[k].0 < out@[l].0,
            forall|j: int|
                0 <= j < i && (#[trigger] lines@[j]).base.attribute.0 == LineAttribute::System
                    && lines@[j].base.sender_role_id is Some ==> exists|k: int| 0 <= k < out@.len() && out@[k].0 == j,
        decreases lines.len() - i,
    {
        if lines[i].base.attribute.0 == LineAttribute::System {
            if let Some(sender) = lines[i].base.sender_role_id {
                let ghost before = out@;
                out.push((i, sender));
                assert forall|j: int|
                    0 <= j < i + 1 && (#[trigger] lines@[j]).base.attribute.0 == LineAttribute::System
                        && lines@[j].base.sender_role_id is Some implies exists|k: int| 0 <= k < out@.len() && out@[k].0 == j by {
                    if j < i {
                        let k = choose|k: int| 0 <= k < before.len() && before[k].0 == j;
                        assert(out@[k] == before[k]);
                    } else {
                        assert(out@[out@.len() - 1].0 == i);
                    }
                }
            }
        }
        i = i + 1;
    }
    out
}

/// Where the persona of a role comes from when its persona line is rebuilt.
#[derive(Clone, Copy, Debug, PartialEq, Eq, Structural)]
pub enum SettingsSource {
    /// Settings made from the profile of a player identity.
    UserIdentity,
    /// The settings of the role as loaded in memory, which are the latest.
    Loaded,
    /// The settings stored on disk.
    Disk,
}

/// Where the persona of a line's sender comes from: nowhere when the sender
/// has no role row (the line is left as it is); a player identity's persona
/// from its profile; an AI role's from its loaded settings when it is
/// loaded, from disk otherwise.
pub fn settings_source(role_is_user: Option<bool>, is_loaded: bool) -> (r: Option<SettingsSource>)
    ensures
        r == (match role_is_user {
            None => None,
            Some(true) => Some(SettingsSource::UserIdentity),
            Some(false) => if is_loaded { Some(SettingsSource::Loaded) } else { Some(SettingsSource::Disk) },
        }),
{
    match role_is_user {
        None => None,
        Some(true) => Some(SettingsSource::UserIdentity),
        Some(false) => {
            if is_loaded {
                Some(SettingsSource::Loaded)
            } else {
                Some(SettingsSource::Disk)
            }
        },
    }
}

/// After `possess_entity`, the possessed entity is present and the
/// conversation does not address it: the player never talks to itself.
pub proof fn law_possessed_never_addressed(before: SessionRoles, after: SessionRoles, role_id: i32)
    requires
        after.possessed_role_id == role_id,
        after.present_role_ids@ == if before.present_role_ids@.contains(role_id) {
            before.present_role_ids@
        } else {
            before.present_role_ids@.push(role_id)
        },
        after.current_role_id == if before.current_role_id == Some(role_id) {
            fallback_speaker(after.present_role_ids@, role_id)
        } else {
            before.current_role_id
        },
    ensures
        after.present_role_ids@.contains(role_id),
        after.current_role_id != Some(role_id),
{
    if !before.present_role_ids@.contains(role_id) {
        assert(after.present_role_ids@[after.present_role_ids@.len() - 1] == role_id);
    }
    if before.current_role_id == Some(role_id) && role_id == PLAYER_ROLE_ID {
        lemma_first_other_differs(after.present_role_ids@, role_id);
    }
}

/// `first_other` never picks `role_id`.
proof fn lemma_first_other_differs(present: Seq<i32>, role_id: i32)
    ensures
        first_other(present, role_id) != Some(role_id),
    decreases present.len(),
{
    if present.len() > 0 && present[0] == role_id {
        lemma_first_other_differs(present.drop_first(), role_id);
    }
}


/// The entity the conversation falls back to, among those present, when it
/// must turn away from `role_id`: none exactly when every present entity is
/// `role_id`; otherwise a present entity other than `role_id`, the first
/// such in the session's order.
pub proof fn law_first_other_is_first_present_other(present: Seq<i32>, role_id: i32)
    ensures
        first_other(present, role_id) is None <==> forall|i: int| 0 <= i < present.len() ==> present[i] == role_id,
        first_other(present, role_id) matches Some(x) ==> {
            &&& x != role_id
            &&& exists|i: int|
                0 <= i < present.len() && present[i] == x && forall|j: int| 0 <= j < i ==> present[j] == role_id
        },
    decreases present.len(),
{
    if present.len() > 0 {
        let rest = present.drop_first();
        law_first_other_is_first_present_other(rest, role_id);
        if present[0] == role_id {
            if first_other(rest, role_id) is None {
                assert forall|i: int| 0 <= i < present.len() implies present[i] == role_id by {
                    if i > 0 {
                        assert(present[i] == rest[i - 1]);
                    }
                }
            } else {
                let x = first_other(rest, role_id)->0;
                let i = choose|i: int|
                    0 <= i < rest.len() && rest[i] == x && forall|j: int| 0 <= j < i ==> rest[j] == role_id;
                assert(present[i + 1] == x);
                assert forall|j: int| 0 <= j < i + 1 implies present[j] == role_id by {
                    if j > 0 {
                        assert(present[j] == rest[j - 1]);
                    }
                }
                assert(!(forall|k: int| 0 <= k < present.len() ==> present[k] == role_id)) by {
                    assert(present[i + 1] != role_id);
                }
            }
        } else {
            assert(!(forall|k: int| 0 <= k < present.len() ==> present[k] == role_id)) by {
                assert(present[0] != role_id);
            }
        }
    }
}

/// When the player possesses the default identity while the conversation
/// addresses it, the conversation turns to nobody only if no present entity
/// differs from it, and otherwise to a present entity other than it.
pub proof fn law_possessing_default_identity_turns_to_present_other(
    before: SessionRoles,
    after: SessionRoles,
)
    requires
        before.current_role_id == Some(PLAYER_ROLE_ID),
        after.present_role_ids@ == if before.present_role_ids@.contains(PLAYER_ROLE_ID) {
            before.present_role_ids@
        } else {
            before.present_role_ids@.push(PLAYER_ROLE_ID)
        },
        after.current_role_id == fallback_speaker(after.present_role_ids@, PLAYER_ROLE_ID),
    ensures
        after.current_role_id is None <==> forall|i: int|
            0 <= i < before.present_role_ids@.len() ==> before.present_role_ids@[i] == PLAYER_ROLE_ID,
        after.current_role_id matches Some(x) ==> x != PLAYER_ROLE_ID && before.present_role_ids@.contains(x),
{
    let b = before.present_role_ids@;
    let a = after.present_role_ids@;
    law_first_other_is_first_present_other(a, PLAYER_ROLE_ID);
    if !b.contains(PLAYER_ROLE_ID) {
        assert forall|i: int| 0 <= i < b.len() implies a[i] == b[i] by {}
    }
    if forall|i: int| 0 <= i < b.len() ==> b[i] == PLAYER_ROLE_ID {
        assert forall|i: int| 0 <= i < a.len() implies a[i] == PLAYER_ROLE_ID by {
            if i < b.len() {
                assert(a[i] == b[i]);
            }
        }
    } else {
        let i = choose|i: int| 0 <= i < b.len() && b[i] != PLAYER_ROLE_ID;
        assert(a[i] == b[i]);
    }
    if let Some(x) = after.current_role_id {
        let i = choose|i: int| 0 <= i < a.len() && a[i] == x && forall|j: int| 0 <= j < i ==> a[j] == PLAYER_ROLE_ID;
        if i < b.len() {
            assert(a[i] == b[i]);
        }
    }
}

} // verus!
