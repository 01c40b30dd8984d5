//! The AI dialogue script event: the narration line a prompt is injected as,
//! and the key under which an event's finished reply is saved, so that
//! loading a save at that event shows the reply again instead of asking the
//! LLM anew.

use vstd::prelude::*;
use crate::memory_builder::{name_narrator, spoken_text};
use crate::types::{LineAttribute, LineAttributeExt, LineBase};

verus! {

/// The decimal digit of `d` (for `d < 10`).
pub open spec fn digit(d: nat) -> char {
    if d == 0 { '0' }
    else if d == 1 { '1' }
    else if d == 2 { '2' }
    else if d == 3 { '3' }
    else if d == 4 { '4' }
    else if d == 5 { '5' }
    else if d == 6 { '6' }
    else if d == 7 { '7' }
    else if d == 8 { '8' }
    else { '9' }
}

/// `n` written in decimal, without leading zeros.
pub open spec fn decimal(n: nat) -> Seq<char>
    decreases n,
{
    if n < 10 {
        seq![digit(n)]
    } else {
        decimal(n / 10).push(digit(n % 10))
    }
}

pub open spec fn reply_key_prefix() -> Seq<char> {
    seq!['_', '_', 'a', 'i', '_', 'r', 'e', 'p', 'l', 'y', '_']
}

/// The script variable holding the saved reply of event `index`.
pub open spec fn reply_key(index: nat) -> Seq<char> {
    reply_key_prefix() + decimal(index)
}

/// The decimal digits as characters.
pub open spec fn digit_chars() -> Seq<char> {
    seq!['0', '1', '2', '3', '4', '5', '6', '7', '8', '9']
}

proof fn lemma_digit_at(d: nat)
    requires
        d < 10,
    ensures
        digit_chars()[d as int] == digit(d),
{
    if d == 0 {} else if d == 1 {} else if d == 2 {} else if d == 3 {} else if d == 4 {}
    else if d == 5 {} else if d == 6 {} else if d == 7 {} else if d == 8 {} else {}
}

/// Appends the decimal digit `d` to `key`.
fn append_digit(key: &mut String, d: usize)
    requires
        d < 10,
    ensures
        final(key)@ == old(key)@.push(digit(d as nat)),
{
    proof {
        reveal_strlit("0123456789");
        lemma_digit_at(d as nat);
    }
    let all = "0123456789";
    assert(all@ =~= digit_chars());
    let one = all.substring_char(d, d + 1);
    assert(one@ =~= seq![digit(d as nat)]);
    key.append(one);
}

/// The key `__ai_reply_<index>` under which the reply of event `index` is
/// saved and looked up.
pub fn saved_reply_key(index: usize) -> (r: String)
    ensures
        r@ == reply_key(index as nat),
{
    // the digit values, least significant first
    let mut digits: Vec<usize> = Vec::new();
    let mut n: usize = index;
    let ghost mut rest: Seq<char> = Seq::empty();
    while n >= 10
        invariant
            decimal(index as nat) == decimal(n as nat) + rest,
            digits@.len() == rest.len(),
            forall|j: int| 0 <= j < digits@.len() ==> #[trigger] digits@[j] < 10 && digit(digits@[j] as nat) == rest[rest.len() - 1 - j],
        decreases n,
    {
        proof {
            rest = seq![digit((n % 10) as nat)] + rest;
        }
        assert(decimal(n as nat) == decimal((n / 10) as nat).push(digit((n % 10) as nat)));
        assert(decimal(index as nat) =~= decimal((n / 10) as nat) + rest);
        digits.push(n % 10);
        n = n / 10;
    }
    let ghost all = decimal(index as nat);
    assert(all =~= seq![digit(n as nat)] + rest);
    digits.push(n);
    assert(forall|j: int| 0 <= j < digits@.len() ==> #[trigger] digits@[j] < 10 && digit(digits@[j] as nat) == all[all.len() - 1 - j]);
    proof {
        reveal_strlit("__ai_reply_");
    }
    assert("__ai_reply_"@ =~= reply_key_prefix());
    let mut key = "__ai_reply_".to_owned();
    let mut i: usize = digits.len();
    while i > 0
        invariant
            i <= digits@.len(),
            digits@.len() == all.len(),
            forall|j: int| 0 <= j < digits@.len() ==> #[trigger] digits@[j] < 10 && digit(digits@[j] as nat) == all[all.len() - 1 - j],
            key@ == reply_key_prefix() + all.take(all.len() - i),
        decreases i,
    {
        i = i - 1;
        assert(all.take(all.len() - i) =~= all.take(all.len() - i - 1).push(digit(digits@[i as int] as nat)));
        append_digit(&mut key, digits[i]);
    }
    assert(all.take(all.len() as int) =~= all);
    key
}

/// `decimal` is one-to-one.
proof fn lemma_decimal_injective(a: nat, b: nat)
    requires
        decimal(a) == decimal(b),
    ensures
        a == b,
    decreases a,
{
    lemma_decimal_len(a);
    lemma_decimal_len(b);
    if a < 10 && b < 10 {
        assert(decimal(a)[0] == digit(a));
        assert(decimal(b)[0] == digit(b));
        lemma_digit_injective(a, b);
    } else if a >= 10 && b >= 10 {
        assert(decimal(a).drop_last() =~= decimal(a / 10));
        assert(decimal(b).drop_last() =~= decimal(b / 10));
        lemma_decimal_injective(a / 10, b / 10);
        assert(decimal(a).last() == digit(a % 10));
        assert(decimal(b).last() == digit(b % 10));
        lemma_digit_injective(a % 10, b % 10);
    }
}

proof fn lemma_decimal_len(n: nat)
    ensures
        decimal(n).len() >= 1,
        n >= 10 ==> decimal(n).len() >= 2,
    decreases n,
{
    if n >= 10 {
        lemma_decimal_len(n / 10);
    }
}

proof fn lemma_digit_injective(a: nat, b: nat)
    requires
        a < 10,
        b < 10,
        digit(a) == digit(b),
    ensures
        a == b,
{
}

/// Distinct events save their replies under distinct keys, so loading a save
/// shows the reply of that very event.
pub proof fn law_reply_keys_distinct(a: nat, b: nat)
    requires
        a != b,
    ensures
        reply_key(a) != reply_key(b),
{
    if reply_key(a) == reply_key(b) {
        assert(decimal(a) =~= reply_key(a).skip(reply_key_prefix().len() as int));
        assert(decimal(b) =~= reply_key(b).skip(reply_key_prefix().len() as int));
        lemma_decimal_injective(a, b);
    }
}

/// The line a dialogue event's prompt is injected as: a `User` line spoken
/// by the narrator (`旁白`) whose content is the built prompt.
pub fn narration_line(content: String) -> (r: LineBase)
    ensures
        r.content@ == content@,
        r.attribute == LineAttributeExt(LineAttribute::User),
        r.display_name matches Some(n) && n@ == name_narrator(),
        r.sender_role_id is None,
        r.original_emotion is None,
        r.action_content is None,
        r.tts_content is None,
        r.tool_call is None,
{
    proof {
        reveal_strlit("旁白");
    }
    assert("旁白"@ =~= name_narrator());
    LineBase {
        content,
        attribute: LineAttributeExt(LineAttribute::User),
        sender_role_id: None,
        display_name: Some("旁白".to_owned()),
        original_emotion: None,
        action_content: None,
        tts_content: None,
        tool_call: None,
    }
}

/// A narration line is quoted to a character as its bare content, without a
/// speaker name.
pub proof fn law_narration_quoted_bare(b: LineBase)
    requires
        b.display_name matches Some(n) && n@ == name_narrator(),
    ensures
        spoken_text(b) == b.content@,
{
}


/// The character a dialogue event speaks as: the event's `character` field
/// when it is a string, `MAIN` otherwise.
pub fn event_character(field: Option<&str>) -> (r: String)
    ensures
        r@ == match field {
            Some(c) => c@,
            None => seq!['M', 'A', 'I', 'N'],
        },
{
    match field {
        Some(c) => c.to_owned(),
        None => {
            proof {
                reveal_strlit("MAIN");
            }
            assert("MAIN"@ =~= seq!['M', 'A', 'I', 'N']);
            "MAIN".to_owned()
        },
    }
}

/// Where the execution of an AI dialogue event stands.
#[derive(Clone, Copy, Debug, PartialEq, Eq, Structural)]
pub enum DialogueStage {
    /// Not begun.
    Start,
    /// Looking up the id of the event's character.
    ResolvingRole,
    /// Making the character the one the conversation addresses.
    SettingRole { role_id: i32 },
    /// Injecting the prompt as a narration line.
    Narrating { role_id: i32 },
    /// Checking that an LLM is configured.
    CheckingLlm { role_id: i32 },
    /// Looking for the reply saved for this event.
    LookingUpReply { role_id: i32 },
    /// Showing the saved reply again.
    ShowingSavedReply,
    /// Having the LLM generate the reply.
    Generating,
    /// Saving the generated reply under the event's key.
    SavingReply,
    /// Done.
    Finished,
    /// Stopped with an error.
    Failed,
}

/// The state of one execution: its stage, and whether the event has a prompt.
#[derive(Clone, Copy, Debug, PartialEq, Eq, Structural)]
pub struct DialogueState {
    pub stage: DialogueStage,
    pub has_prompt: bool,
}

/// What the executor reports back.
#[derive(Clone, Debug)]
pub enum DialogueEvent {
    /// Execution begins; whether a script is running.
    Begun { script_running: bool },
    /// The id of the event's character, if it has one.
    RoleResolved(Option<i32>),
    /// The last action was carried out.
    Done,
    /// Whether an LLM is configured.
    LlmChecked(bool),
    /// The reply saved for this event, if any.
    SavedReply(Option<String>),
    /// The reply the LLM generated.
    ReplyGenerated(String),
}

/// Why an execution stops.
#[derive(Clone, Copy, Debug, PartialEq, Eq, Structural)]
pub enum DialogueFailure {
    /// No script is running.
    NoScript,
    /// The character has no role id.
    NoRoleId,
    /// No LLM is configured; the script ends.
    NoLlm,
}

/// What the executor is to do next.
#[derive(Clone, Debug)]
pub enum DialogueAction {
    /// Look up the id of the event's character.
    ResolveRole,
    /// Make the role the one the conversation addresses.
    SetCurrentRole(i32),
    /// Add the prompt as a narration line (`narration_line`).
    InjectNarration,
    /// Check that an LLM is configured.
    CheckLlm,
    /// Look up the reply saved under `saved_reply_key` of the event.
    LookUpSavedReply,
    /// Show the saved reply again, without asking the LLM.
    EmitSavedReply { role_id: i32, text: String },
    /// Have the LLM generate the reply.
    GenerateReply,
    /// Save the reply under the key of the event, if a script still runs.
    SaveReply(String),
    /// Stop with an error.
    Fail(DialogueFailure),
    /// The event is done.
    Finish,
    /// Nothing to do: the report does not fit the stage.
    Wait,
}

pub open spec fn at(stage: DialogueStage, has_prompt: bool) -> DialogueState {
    DialogueState { stage, has_prompt }
}

/// One step of an AI dialogue event. In order: without a running script it
/// fails; it looks up the character's role id and fails without one; makes
/// that role the one addressed; injects the prompt as narration when there is
/// one; fails without an LLM; shows the saved reply of the event when there
/// is one, and otherwise has the LLM generate the reply and saves it. A
/// report that does not fit the stage changes nothing.
pub open spec fn dialogue_step(st: DialogueState, ev: DialogueEvent) -> (DialogueState, DialogueAction) {
    let p = st.has_prompt;
    match (st.stage, ev) {
        (DialogueStage::Start, DialogueEvent::Begun { script_running }) => if script_running {
            (at(DialogueStage::ResolvingRole, p), DialogueAction::ResolveRole)
        } else {
            (at(DialogueStage::Failed, p), DialogueAction::Fail(DialogueFailure::NoScript))
        },
        (DialogueStage::ResolvingRole, DialogueEvent::RoleResolved(r)) => match r {
            Some(role_id) => (at(DialogueStage::SettingRole { role_id }, p), DialogueAction::SetCurrentRole(role_id)),
            None => (at(DialogueStage::Failed, p), DialogueAction::Fail(DialogueFailure::NoRoleId)),
        },
        (DialogueStage::SettingRole { role_id }, DialogueEvent::Done) => if p {
            (at(DialogueStage::Narrating { role_id }, p), DialogueAction::InjectNarration)
        } else {
            (at(DialogueStage::CheckingLlm { role_id }, p), DialogueAction::CheckLlm)
        },
        (DialogueStage::Narrating { role_id }, DialogueEvent::Done) =>
            (at(DialogueStage::CheckingLlm { role_id }, p), DialogueAction::CheckLlm),
        (DialogueStage::CheckingLlm { role_id }, DialogueEvent::LlmChecked(ok)) => if ok {
            (at(DialogueStage::LookingUpReply { role_id }, p), DialogueAction::LookUpSavedReply)
        } else {
            (at(DialogueStage::Failed, p), DialogueAction::Fail(DialogueFailure::NoLlm))
        },
        (DialogueStage::LookingUpReply { role_id }, DialogueEvent::SavedReply(saved)) => match saved {
            Some(text) => (at(DialogueStage::ShowingSavedReply, p), DialogueAction::EmitSavedReply { role_id, text }),
            None => (at(DialogueStage::Generating, p), DialogueAction::GenerateReply),
        },
        (DialogueStage::ShowingSavedReply, DialogueEvent::Done) => (at(DialogueStage::Finished, p), DialogueAction::Finish),
        (DialogueStage::Generating, DialogueEvent::ReplyGenerated(text)) =>
            (at(DialogueStage::SavingReply, p), DialogueAction::SaveReply(text)),
        (DialogueStage::SavingReply, DialogueEvent::Done) => (at(DialogueStage::Finished, p), DialogueAction::Finish),
        _ => (st, DialogueAction::Wait),
    }
}

/// The state an execution starts in.
pub fn dialogue_start(has_prompt: bool) -> (r: DialogueState)
    ensures
        r == at(DialogueStage::Start, has_prompt),
{
    DialogueState { stage: DialogueStage::Start, has_prompt }
}

/// Takes one report and says what to do next (see `dialogue_step`).
pub fn dialogue_next(st: DialogueState, ev: DialogueEvent) -> (r: (DialogueState, DialogueAction))
    ensures
        r == dialogue_step(st, ev),
{
    let p = st.has_prompt;
    match (st.stage, ev) {
        (DialogueStage::Start, DialogueEvent::Begun { script_running }) => if script_running {
            (DialogueState { stage: DialogueStage::ResolvingRole, has_prompt: p }, DialogueAction::ResolveRole)
        } else {
            (DialogueState { stage: DialogueStage::Failed, has_prompt: p }, DialogueAction::Fail(DialogueFailure::NoScript))
        },
        (DialogueStage::ResolvingRole, DialogueEvent::RoleResolved(r)) => match r {
            Some(role_id) => (
                DialogueState { stage: DialogueStage::SettingRole { role_id }, has_prompt: p },
                DialogueAction::SetCurrentRole(role_id),
            ),
            None => (DialogueState { stage: DialogueStage::Failed, has_prompt: p }, DialogueAction::Fail(DialogueFailure::NoRoleId)),
        },
        (DialogueStage::SettingRole { role_id }, DialogueEvent::Done) => if p {
            (DialogueState { stage: DialogueStage::Narrating { role_id }, has_prompt: p }, DialogueAction::InjectNarration)
        } else {
            (DialogueState { stage: DialogueStage::CheckingLlm { role_id }, has_prompt: p }, DialogueAction::CheckLlm)
        },
        (DialogueStage::Narrating { role_id }, DialogueEvent::Done) =>
            (DialogueState { stage: DialogueStage::CheckingLlm { role_id }, has_prompt: p }, DialogueAction::CheckLlm),
        (DialogueStage::CheckingLlm { role_id }, DialogueEvent::LlmChecked(ok)) => if ok {
            (DialogueState { stage: DialogueStage::LookingUpReply { role_id }, has_prompt: p }, DialogueAction::LookUpSavedReply)
        } else {
            (DialogueState { stage: DialogueStage::Failed, has_prompt: p }, DialogueAction::Fail(DialogueFailure::NoLlm))
        },
        (DialogueStage::LookingUpReply { role_id }, DialogueEvent::SavedReply(saved)) => match saved {
            Some(text) => (
                DialogueState { stage: DialogueStage::ShowingSavedReply, has_prompt: p },
                DialogueAction::EmitSavedReply { role_id, text },
            ),
            None => (DialogueState { stage: DialogueStage::Generating, has_prompt: p }, DialogueAction::GenerateReply),
        },
        (DialogueStage::ShowingSavedReply, DialogueEvent::Done) =>
            (DialogueState { stage: DialogueStage::Finished, has_prompt: p }, DialogueAction::Finish),
        (DialogueStage::Generating, DialogueEvent::ReplyGenerated(text)) =>
            (DialogueState { stage: DialogueStage::SavingReply, has_prompt: p }, DialogueAction::SaveReply(text)),
        (DialogueStage::SavingReply, DialogueEvent::Done) =>
            (DialogueState { stage: DialogueStage::Finished, has_prompt: p }, DialogueAction::Finish),
        _ => (st, DialogueAction::Wait),
    }
}

/// Once finished or failed, an execution stays so and does nothing more.
pub proof fn law_dialogue_end_is_final(st: DialogueState, ev: DialogueEvent)
    requires
        st.stage == DialogueStage::Finished || st.stage == DialogueStage::Failed,
    ensures
        dialogue_step(st, ev) == (st, DialogueAction::Wait),
{
}

/// The LLM is asked for a reply only once no saved reply was found for the
/// event, and only a reply the LLM generated is saved.
pub proof fn law_reply_generated_only_without_saved_one(st: DialogueState, ev: DialogueEvent)
    ensures
        dialogue_step(st, ev).1 is GenerateReply ==> (st.stage is LookingUpReply && ev matches DialogueEvent::SavedReply(None)),
        dialogue_step(st, ev).1 matches DialogueAction::SaveReply(t) ==> (st.stage == DialogueStage::Generating
            && (ev matches DialogueEvent::ReplyGenerated(g) && g == t)),
{
}


/// The role a stage works for, if it carries one.
pub open spec fn stage_role(stage: DialogueStage) -> Option<i32> {
    match stage {
        DialogueStage::SettingRole { role_id } => Some(role_id),
        DialogueStage::Narrating { role_id } => Some(role_id),
        DialogueStage::CheckingLlm { role_id } => Some(role_id),
        DialogueStage::LookingUpReply { role_id } => Some(role_id),
        _ => None,
    }
}

/// The role an action is about, if it names one.
pub open spec fn action_role(a: DialogueAction) -> Option<i32> {
    match a {
        DialogueAction::SetCurrentRole(r) => Some(r),
        DialogueAction::EmitSavedReply { role_id, .. } => Some(role_id),
        _ => None,
    }
}

/// A stage reached once the character's role is known to be `id`: one that
/// works for `id`, or one past the point where a role matters.
pub open spec fn resolved_as(stage: DialogueStage, id: i32) -> bool {
    ||| stage_role(stage) == Some(id)
    ||| stage == DialogueStage::ShowingSavedReply
    ||| stage == DialogueStage::Generating
    ||| stage == DialogueStage::SavingReply
    ||| stage == DialogueStage::Finished
    ||| stage == DialogueStage::Failed
}

/// One step keeps the character's role: the role the lookup reports is the
/// one made current and carried on; once known, every later stage and every
/// action naming a role (making it current, showing the saved reply) names
/// that same role, with or without a prompt; and no role is named before the
/// lookup reports one. The prompt is injected as narration once the role is
/// made current, exactly when the event has one.
pub proof fn law_dialogue_step_keeps_role(st: DialogueState, ev: DialogueEvent, id: i32)
    ensures
        ({
            let (next, act) = dialogue_step(st, ev);
            &&& (st.stage == DialogueStage::ResolvingRole && ev == DialogueEvent::RoleResolved(Some(id))) ==> {
                &&& stage_role(next.stage) == Some(id)
                &&& action_role(act) == Some(id)
            }
            &&& resolved_as(st.stage, id) ==> {
                &&& resolved_as(next.stage, id)
                &&& (action_role(act) is Some ==> action_role(act) == Some(id))
            }
            &&& (stage_role(st.stage) is None && !(st.stage == DialogueStage::ResolvingRole
                && ev matches DialogueEvent::RoleResolved(Some(_)))) ==> {
                &&& stage_role(next.stage) is None
                &&& action_role(act) is None
            }
            &&& next.has_prompt == st.has_prompt
            &&& act is InjectNarration ==> st.has_prompt && st.stage is SettingRole && ev is Done
            &&& (st.stage is SettingRole && ev is Done) ==> (act is InjectNarration <==> st.has_prompt)
        }),
{
}

/// The state after the first `n` reports, from `st`.
pub open spec fn dialogue_after(st: DialogueState, evs: Seq<DialogueEvent>, n: nat) -> DialogueState
    decreases n,
{
    if n == 0 {
        st
    } else {
        dialogue_step(dialogue_after(st, evs, (n - 1) as nat), evs[n - 1]).0
    }
}

/// Over a whole execution, from the start and whatever reports come, once
/// the lookup reported role `id` (report `r`), every later stage works for
/// `id` if it works for a role, and every later action that names a role,
/// making it current or showing the saved reply as its speech, names `id`.
pub proof fn law_dialogue_speaks_as_resolved_role(
    has_prompt: bool,
    evs: Seq<DialogueEvent>,
    r: nat,
    m: nat,
    id: i32,
)
    requires
        r < m < evs.len(),
        dialogue_after(at(DialogueStage::Start, has_prompt), evs, r).stage == DialogueStage::ResolvingRole,
        evs[r as int] == DialogueEvent::RoleResolved(Some(id)),
    ensures
        stage_role(dialogue_after(at(DialogueStage::Start, has_prompt), evs, m).stage) is Some ==> stage_role(
            dialogue_after(at(DialogueStage::Start, has_prompt), evs, m).stage,
        ) == Some(id),
        action_role(dialogue_step(dialogue_after(at(DialogueStage::Start, has_prompt), evs, m), evs[m as int]).1) is Some
            ==> action_role(dialogue_step(dialogue_after(at(DialogueStage::Start, has_prompt), evs, m), evs[m as int]).1)
            == Some(id),
{
    let s0 = at(DialogueStage::Start, has_prompt);
    lemma_resolved_stays(s0, evs, r, m, id);
    law_dialogue_step_keeps_role(dialogue_after(s0, evs, m), evs[m as int], id);
}

proof fn lemma_resolved_stays(s0: DialogueState, evs: Seq<DialogueEvent>, r: nat, m: nat, id: i32)
    requires
        r < m <= evs.len(),
        dialogue_after(s0, evs, r).stage == DialogueStage::ResolvingRole,
        evs[r as int] == DialogueEvent::RoleResolved(Some(id)),
    ensures
        resolved_as(dialogue_after(s0, evs, m).stage, id),
    decreases m,
{
    let k = (m - 1) as nat;
    law_dialogue_step_keeps_role(dialogue_after(s0, evs, k), evs[k as int], id);
    if k > r {
        lemma_resolved_stays(s0, evs, r, k, id);
    }
}

} // verus!
