//! What holds of every message list the memory builder produces.

use vstd::prelude::*;
use crate::memory_builder::{
    announced_tool_calls, answers, concat, context_text, extras_text, join, nonempty, other_block_text,
    is_break_at, is_first_break, lemma_first_break_unique, spoken_text, tool_call_text, user_tail_len, wrap, awaits_any, carries, drop_unpaired, has_call_id, paired_at, built_messages, call_ids, collected_messages, concerns, flush_spec,
    flushed, has_dangling_call, result_fields, run, step, strip, strip_one, tool_call_message, tool_message,
    unanswered_ids, BufferKind, BuildState,
};
use crate::text::blank;
use crate::types::{
    LineAttribute, plain_message, role_assistant, role_system, role_tool, role_user, GameLine, LineBase,
    MessageView, ToolCallView,
};

verus! {

/// The role names differ from one another.
pub proof fn lemma_roles_distinct()
    ensures
        role_system() != role_user(),
        role_system() != role_assistant(),
        role_system() != role_tool(),
        role_user() != role_assistant(),
        role_user() != role_tool(),
        role_assistant() != role_tool(),
{
    assert(role_system()[0] != role_user()[0]);
    assert(role_system()[0] != role_assistant()[0]);
    assert(role_system()[1] != role_tool()[1]);
    assert(role_user()[0] != role_assistant()[0]);
    assert(role_user()[0] != role_tool()[0]);
    assert(role_assistant()[0] != role_tool()[0]);
}

/// Writing the buffer out keeps the messages so far and adds at most one
/// `assistant` or `user` message without calls.
pub proof fn lemma_flush_extends(mem: Seq<MessageView>, buf: Seq<LineBase>, kind: Option<BufferKind>)
    ensures
        ({
            let f = flush_spec(mem, buf, kind);
            &&& f.len() == mem.len() || f.len() == mem.len() + 1
            &&& forall|i: int| 0 <= i < mem.len() ==> f[i] == mem[i]
            &&& f.len() == mem.len() + 1 ==> {
                &&& f.last().tool_calls is None
                &&& f.last().tool_call_id is None
                &&& f.last().role == role_assistant() || f.last().role == role_user()
            }
        }),
{
}

/// The number of `system` messages.
pub open spec fn system_count(mem: Seq<MessageView>) -> nat
    decreases mem.len(),
{
    if mem.len() == 0 {
        0
    } else {
        system_count(mem.drop_last()) + if mem.last().role == role_system() { 1nat } else { 0nat }
    }
}

/// Pushing a message adds one to the count exactly when it is a `system` message.
proof fn lemma_system_count_push(mem: Seq<MessageView>, m: MessageView)
    ensures
        system_count(mem.push(m)) == system_count(mem) + if m.role == role_system() { 1nat } else { 0nat },
{
    assert(mem.push(m).drop_last() =~= mem);
}

/// Writing the buffer out adds no `system` message.
proof fn lemma_flush_system_count(mem: Seq<MessageView>, buf: Seq<LineBase>, kind: Option<BufferKind>)
    ensures
        system_count(flush_spec(mem, buf, kind)) == system_count(mem),
{
    lemma_flush_extends(mem, buf, kind);
    lemma_roles_distinct();
    let f = flush_spec(mem, buf, kind);
    if f.len() == mem.len() + 1 {
        assert(f =~= mem.push(f.last()));
        lemma_system_count_push(mem, f.last());
    } else {
        assert(f =~= mem);
    }
}

/// The `system` messages so far: at most one, and none before the persona
/// line is taken.
pub open spec fn system_ok(st: BuildState) -> bool {
    &&& system_count(st.memory) <= 1
    &&& !st.has_system ==> system_count(st.memory) == 0
}

proof fn lemma_step_system(
    target: i32,
    st: BuildState,
    line: GameLine,
    calls: Option<Seq<ToolCallView>>,
    result: Option<(Option<Seq<char>>, Seq<char>)>,
)
    requires
        system_ok(st),
    ensures
        system_ok(step(target, st, line, calls, result)),
{
    lemma_roles_distinct();
    lemma_flush_system_count(st.memory, st.buffer, st.kind);
    let cleared = flushed(st).memory;
    let s2 = step(target, st, line, calls, result);
    if s2.memory.len() == cleared.len() + 1 && s2.memory =~= cleared.push(s2.memory.last()) {
        lemma_system_count_push(cleared, s2.memory.last());
    }
}

proof fn lemma_run_system(
    target: i32,
    lines: Seq<GameLine>,
    calls: Seq<Option<Seq<ToolCallView>>>,
    results: Seq<Option<(Option<Seq<char>>, Seq<char>)>>,
    n: nat,
)
    ensures
        system_ok(run(target, lines, calls, results, n)),
    decreases n,
{
    if n > 0 {
        let k = (n - 1) as nat;
        lemma_run_system(target, lines, calls, results, k);
        lemma_step_system(target, run(target, lines, calls, results, k), lines[k as int], calls[k as int], results[k as int]);
    }
}

/// Stripping calls keeps every role.
proof fn lemma_strip_keeps_roles(mem: Seq<MessageView>, open: Set<Seq<char>>)
    ensures
        system_count(strip(mem, open)) == system_count(mem),
    decreases mem.len(),
{
    if mem.len() > 0 {
        lemma_strip_keeps_roles(mem.drop_last(), open);
        assert(strip(mem, open).drop_last() =~= strip(mem.drop_last(), open));
    }
}

/// A character's message list holds at most one `system` message: of several
/// persona lines of the target only the first is kept.
pub proof fn law_at_most_one_system(
    target: i32,
    lines: Seq<GameLine>,
    calls: Seq<Option<Seq<ToolCallView>>>,
    results: Seq<Option<(Option<Seq<char>>, Seq<char>)>>,
)
    ensures
        system_count(built_messages(target, lines, calls, results)) <= 1,
{
    let st = run(target, lines, calls, results, lines.len());
    lemma_run_system(target, lines, calls, results, lines.len());
    lemma_flush_system_count(st.memory, st.buffer, st.kind);
    let pre = flush_spec(st.memory, st.buffer, st.kind);
    lemma_strip_keeps_roles(pre, st.open);
    let ms = strip(pre, st.open);
    lemma_drop_system(ms, ms.len());
    assert(ms.take(ms.len() as int) =~= ms);
}

/// Dropping unpaired results removes no `system` message.
proof fn lemma_drop_system(ms: Seq<MessageView>, n: nat)
    requires
        n <= ms.len(),
    ensures
        system_count(drop_unpaired(ms, n)) == system_count(ms.take(n as int)),
    decreases n,
{
    lemma_roles_distinct();
    if n > 0 {
        let k = (n - 1) as nat;
        lemma_drop_system(ms, k);
        assert(ms.take(n as int) =~= ms.take(k as int).push(ms[k as int]));
        lemma_system_count_push(ms.take(k as int), ms[k as int]);
        if paired_at(ms, k as int) {
            lemma_system_count_push(drop_unpaired(ms, k), ms[k as int]);
        }
    }
}

/// How many of the first `i` messages stay: the position message `i` takes
/// when it stays.
pub open spec fn kept_before(ms: Seq<MessageView>, i: int) -> nat {
    drop_unpaired(ms, i as nat).len()
}

/// Position `k` of the first `n` messages that stay holds one of them.
pub open spec fn kept_from(ms: Seq<MessageView>, n: nat, k: int) -> bool {
    exists|i: int| 0 <= i < n && paired_at(ms, i) && #[trigger] kept_before(ms, i) == k
}

/// Where the messages that stay end up: in order, each at `kept_before`.
proof fn lemma_drop_positions(ms: Seq<MessageView>, n: nat)
    requires
        n <= ms.len(),
    ensures
        forall|i: int, i2: int| 0 <= i <= i2 <= n ==> #[trigger] kept_before(ms, i) <= #[trigger] kept_before(ms, i2),
        kept_before(ms, n as int) == drop_unpaired(ms, n).len(),
        forall|i: int|
            0 <= i < n && paired_at(ms, i) ==> kept_before(ms, i + 1) == kept_before(ms, i) + 1 && drop_unpaired(
                ms,
                n,
            )[#[trigger] kept_before(ms, i) as int] == ms[i],
        forall|k: int| 0 <= k < drop_unpaired(ms, n).len() ==> #[trigger] kept_from(ms, n, k),
    decreases n,
{
    if n > 0 {
        let m = (n - 1) as nat;
        lemma_drop_positions(ms, m);
        let prev = drop_unpaired(ms, m);
        let cur = drop_unpaired(ms, n);
        assert(kept_before(ms, m as int) == prev.len());
        assert forall|i: int, i2: int| 0 <= i <= i2 <= n implies #[trigger] kept_before(ms, i) <= #[trigger] kept_before(ms, i2) by {
            if i2 == n {
                if i < n {
                    assert(kept_before(ms, i) <= kept_before(ms, m as int));
                }
            }
        }
        assert forall|i: int| 0 <= i < n && paired_at(ms, i) implies kept_before(ms, i + 1) == kept_before(ms, i) + 1 && cur[#[trigger] kept_before(ms, i) as int] == ms[i] by {
            if i < m {
                assert(kept_before(ms, i) < kept_before(ms, i + 1));
                assert(kept_before(ms, i + 1) <= kept_before(ms, m as int));
                assert(prev[kept_before(ms, i) as int] == ms[i]);
                assert(cur[kept_before(ms, i) as int] == prev[kept_before(ms, i) as int]);
            }
        }
        assert forall|k: int| 0 <= k < drop_unpaired(ms, n).len() implies #[trigger] kept_from(ms, n, k) by {
            if k < prev.len() {
                assert(kept_from(ms, m, k));
                let i = choose|i: int| 0 <= i < m && paired_at(ms, i) && #[trigger] kept_before(ms, i) == k;
                assert(0 <= i < n && paired_at(ms, i) && kept_before(ms, i) == k);
            } else {
                assert(paired_at(ms, m as int));
                assert(kept_before(ms, m as int) == k);
            }
        }
    } else {
        assert(drop_unpaired(ms, 0).len() == 0);
    }
}

/// Every id awaiting a result is non-blank and was announced by a message.
pub open spec fn open_announced(mem: Seq<MessageView>, open: Set<Seq<char>>) -> bool {
    forall|x: Seq<char>|
        #[trigger] open.contains(x) ==> !blank(x) && exists|j: int| 0 <= j < mem.len() && carries(mem[j], x)
}

/// Every `tool` message answers a non-blank call announced before it.
pub open spec fn results_follow_calls(mem: Seq<MessageView>) -> bool {
    forall|k: int|
        0 <= k < mem.len() && (#[trigger] mem[k]).role == role_tool() ==> match mem[k].tool_call_id {
            Some(x) => !blank(x) && exists|j: int| 0 <= j < k && carries(mem[j], x),
            None => false,
        }
}

/// Every announced non-blank call awaits its result or is answered by a
/// later `tool` message.
pub open spec fn calls_answered_or_open(mem: Seq<MessageView>, open: Set<Seq<char>>) -> bool {
    forall|j: int, x: Seq<char>|
        0 <= j < mem.len() && #[trigger] carries(mem[j], x) && !blank(x) ==> open.contains(x) || exists|k: int|
            j < k < mem.len() && answers(mem[k], x)
}

/// Only `assistant` messages carry calls.
pub open spec fn calls_on_assistant(mem: Seq<MessageView>) -> bool {
    forall|j: int| 0 <= j < mem.len() && (#[trigger] mem[j]).tool_calls is Some ==> mem[j].role == role_assistant()
}

pub open spec fn pairing_ok(mem: Seq<MessageView>, open: Set<Seq<char>>) -> bool {
    &&& calls_on_assistant(mem)
    &&& open_announced(mem, open)
    &&& results_follow_calls(mem)
    &&& calls_answered_or_open(mem, open)
}

/// Appending a message that is no `tool` message and carries no call keeps
/// the pairing.
proof fn lemma_push_plain(mem: Seq<MessageView>, open: Set<Seq<char>>, m: MessageView)
    requires
        pairing_ok(mem, open),
        m.tool_calls is None,
        m.role != role_tool(),
    ensures
        pairing_ok(mem.push(m), open),
{
    let m2 = mem.push(m);
    assert forall|x: Seq<char>| #[trigger] open.contains(x) implies !blank(x) && exists|j: int|
        0 <= j < m2.len() && carries(m2[j], x) by {
        let j = choose|j: int| 0 <= j < mem.len() && carries(mem[j], x);
        assert(m2[j] == mem[j]);
    }
    assert forall|k: int| 0 <= k < m2.len() && (#[trigger] m2[k]).role == role_tool() implies match m2[k].tool_call_id {
        Some(x) => !blank(x) && exists|j: int| 0 <= j < k && carries(m2[j], x),
        None => false,
    } by {
        assert(k < mem.len());
        assert(m2[k] == mem[k]);
        if let Some(x) = mem[k].tool_call_id {
            let j = choose|j: int| 0 <= j < k && carries(mem[j], x);
            assert(m2[j] == mem[j]);
        }
    }
    assert forall|j: int, x: Seq<char>| 0 <= j < m2.len() && #[trigger] carries(m2[j], x) && !blank(x) implies open.contains(x)
        || exists|k: int| j < k < m2.len() && answers(m2[k], x) by {
        assert(j < mem.len());
        assert(m2[j] == mem[j]);
        if !open.contains(x) {
            let k = choose|k: int| j < k < mem.len() && answers(mem[k], x);
            assert(m2[k] == mem[k]);
        }
    }
}

/// Writing the buffer out keeps the pairing.
proof fn lemma_flush_pairing(st: BuildState)
    requires
        pairing_ok(st.memory, st.open),
    ensures
        pairing_ok(flushed(st).memory, st.open),
{
    lemma_flush_extends(st.memory, st.buffer, st.kind);
    lemma_roles_distinct();
    let f = flushed(st).memory;
    if f.len() == st.memory.len() + 1 {
        assert(f =~= st.memory.push(f.last()));
        lemma_push_plain(st.memory, st.open, f.last());
    } else {
        assert(f =~= st.memory);
    }
}

proof fn lemma_step_pairing(
    target: i32,
    st: BuildState,
    line: GameLine,
    calls: Option<Seq<ToolCallView>>,
    result: Option<(Option<Seq<char>>, Seq<char>)>,
)
    requires
        pairing_ok(st.memory, st.open),
    ensures
        ({
            let s2 = step(target, st, line, calls, result);
            pairing_ok(s2.memory, s2.open)
        }),
{
    lemma_roles_distinct();
    lemma_flush_pairing(st);
    let c = flushed(st);
    let mem = c.memory;
    let open = st.open;
    let s2 = step(target, st, line, calls, result);
    let b = line.base;
    if s2.memory == mem.push(plain_message(role_system(), b.content@)) {
        lemma_push_plain(mem, open, plain_message(role_system(), b.content@));
    }
    if s2.memory.len() == mem.len() + 1 && s2.memory.last().role == role_assistant()
        && s2.memory.last().tool_calls is Some {
        // a tool-call line was taken in
        let cs = s2.memory.last().tool_calls->0;
        assert(s2.memory == mem.push(tool_call_message(b, cs)));
        assert(s2.open == open.union(call_ids(cs)));
        let m2 = s2.memory;
        let o2 = s2.open;
        assert forall|x: Seq<char>| #[trigger] o2.contains(x) implies !blank(x) && exists|j: int|
            0 <= j < m2.len() && carries(m2[j], x) by {
            if open.contains(x) {
                let j = choose|j: int| 0 <= j < mem.len() && carries(mem[j], x);
                assert(m2[j] == mem[j]);
            } else {
                let i = choose|i: int| 0 <= i < cs.len() && (#[trigger] cs[i]).id == x && !blank(x);
                assert(carries(m2[mem.len() as int], x));
            }
        }
        assert forall|k: int| 0 <= k < m2.len() && (#[trigger] m2[k]).role == role_tool() implies match m2[k].tool_call_id {
            Some(x) => !blank(x) && exists|j: int| 0 <= j < k && carries(m2[j], x),
            None => false,
        } by {
            assert(k < mem.len());
            assert(m2[k] == mem[k]);
            if let Some(x) = mem[k].tool_call_id {
                let j = choose|j: int| 0 <= j < k && carries(mem[j], x);
                assert(m2[j] == mem[j]);
            }
        }
        assert forall|j: int, x: Seq<char>| 0 <= j < m2.len() && #[trigger] carries(m2[j], x) && !blank(x) implies o2.contains(x)
            || exists|k: int| j < k < m2.len() && answers(m2[k], x) by {
            if j < mem.len() {
                assert(m2[j] == mem[j]);
                if !open.contains(x) {
                    let k = choose|k: int| j < k < mem.len() && answers(mem[k], x);
                    assert(m2[k] == mem[k]);
                }
            } else {
                let i = choose|i: int| 0 <= i < cs.len() && (#[trigger] cs[i]).id == x;
                assert(call_ids(cs).contains(x));
            }
        }
    }
    if s2.memory.len() == mem.len() + 1 && s2.memory.last().role == role_tool() {
        // a tool result answered an awaited call
        let x = s2.memory.last().tool_call_id->0;
        let text = s2.memory.last().content;
        assert(s2.memory == mem.push(tool_message(x, text)));
        assert(open.contains(x));
        assert(s2.open == open.remove(x));
        let m2 = s2.memory;
        let o2 = s2.open;
        assert forall|y: Seq<char>| #[trigger] o2.contains(y) implies !blank(y) && exists|j: int|
            0 <= j < m2.len() && carries(m2[j], y) by {
            assert(open.contains(y));
            let j = choose|j: int| 0 <= j < mem.len() && carries(mem[j], y);
            assert(m2[j] == mem[j]);
        }
        assert forall|k: int| 0 <= k < m2.len() && (#[trigger] m2[k]).role == role_tool() implies match m2[k].tool_call_id {
            Some(y) => !blank(y) && exists|j: int| 0 <= j < k && carries(m2[j], y),
            None => false,
        } by {
            if k < mem.len() {
                assert(m2[k] == mem[k]);
                if let Some(y) = mem[k].tool_call_id {
                    let j = choose|j: int| 0 <= j < k && carries(mem[j], y);
                    assert(m2[j] == mem[j]);
                }
            } else {
                let j = choose|j: int| 0 <= j < mem.len() && carries(mem[j], x);
                assert(m2[j] == mem[j]);
            }
        }
        assert forall|j: int, y: Seq<char>| 0 <= j < m2.len() && #[trigger] carries(m2[j], y) && !blank(y) implies o2.contains(y)
            || exists|k: int| j < k < m2.len() && answers(m2[k], y) by {
            assert(j < mem.len());
            assert(m2[j] == mem[j]);
            if y == x {
                assert(answers(m2[mem.len() as int], y));
            } else if !open.contains(y) {
                let k = choose|k: int| j < k < mem.len() && answers(mem[k], y);
                assert(m2[k] == mem[k]);
            }
        }
    }
}

proof fn lemma_run_pairing(
    target: i32,
    lines: Seq<GameLine>,
    calls: Seq<Option<Seq<ToolCallView>>>,
    results: Seq<Option<(Option<Seq<char>>, Seq<char>)>>,
    n: nat,
)
    ensures
        ({
            let st = run(target, lines, calls, results, n);
            pairing_ok(st.memory, st.open)
        }),
    decreases n,
{
    if n > 0 {
        let k = (n - 1) as nat;
        lemma_run_pairing(target, lines, calls, results, k);
        lemma_step_pairing(target, run(target, lines, calls, results, k), lines[k as int], calls[k as int], results[k as int]);
    }
}

/// The collected messages and the ids still awaiting a result keep the pairing.
proof fn lemma_collected_pairing(
    target: i32,
    lines: Seq<GameLine>,
    calls: Seq<Option<Seq<ToolCallView>>>,
    results: Seq<Option<(Option<Seq<char>>, Seq<char>)>>,
)
    ensures
        pairing_ok(
            collected_messages(target, lines, calls, results),
            unanswered_ids(target, lines, calls, results),
        ),
{
    let st = run(target, lines, calls, results, lines.len());
    lemma_run_pairing(target, lines, calls, results, lines.len());
    lemma_flush_pairing(st);
}

/// The stripped messages, before unpaired results are dropped.
pub open spec fn stripped_messages(
    target: i32,
    lines: Seq<GameLine>,
    calls: Seq<Option<Seq<ToolCallView>>>,
    results: Seq<Option<(Option<Seq<char>>, Seq<char>)>>,
) -> Seq<MessageView> {
    strip(collected_messages(target, lines, calls, results), unanswered_ids(target, lines, calls, results))
}

/// Message `k` of the built list is a stripped message `i` that stays.
proof fn lemma_built_source(
    target: i32,
    lines: Seq<GameLine>,
    calls: Seq<Option<Seq<ToolCallView>>>,
    results: Seq<Option<(Option<Seq<char>>, Seq<char>)>>,
    k: int,
) -> (i: int)
    requires
        0 <= k < built_messages(target, lines, calls, results).len(),
    ensures
        0 <= i < stripped_messages(target, lines, calls, results).len(),
        i < collected_messages(target, lines, calls, results).len(),
        paired_at(stripped_messages(target, lines, calls, results), i),
        kept_before(stripped_messages(target, lines, calls, results), i) == k,
        built_messages(target, lines, calls, results)[k] == stripped_messages(target, lines, calls, results)[i],
        stripped_messages(target, lines, calls, results)[i] == strip_one(
            collected_messages(target, lines, calls, results)[i],
            unanswered_ids(target, lines, calls, results),
        ),
{
    let ms = stripped_messages(target, lines, calls, results);
    lemma_drop_positions(ms, ms.len());
    let out = built_messages(target, lines, calls, results);
    assert(out == drop_unpaired(ms, ms.len()));
    assert(out[k] == drop_unpaired(ms, ms.len())[k]);
    assert(kept_from(ms, ms.len(), k));
    let i = choose|i: int| 0 <= i < ms.len() && paired_at(ms, i) && #[trigger] kept_before(ms, i) == k;
    i
}

/// A stripped message that stays is at position `kept_before` of the built list.
proof fn lemma_built_target(
    target: i32,
    lines: Seq<GameLine>,
    calls: Seq<Option<Seq<ToolCallView>>>,
    results: Seq<Option<(Option<Seq<char>>, Seq<char>)>>,
    i: int,
)
    requires
        0 <= i < stripped_messages(target, lines, calls, results).len(),
        paired_at(stripped_messages(target, lines, calls, results), i),
    ensures
        kept_before(stripped_messages(target, lines, calls, results), i) < built_messages(target, lines, calls, results).len(),
        built_messages(target, lines, calls, results)[kept_before(stripped_messages(target, lines, calls, results), i) as int]
            == stripped_messages(target, lines, calls, results)[i],
        forall|i2: int|
            i < i2 <= stripped_messages(target, lines, calls, results).len() ==> kept_before(
                stripped_messages(target, lines, calls, results),
                i,
            ) < #[trigger] kept_before(stripped_messages(target, lines, calls, results), i2),
{
    let ms = stripped_messages(target, lines, calls, results);
    lemma_drop_positions(ms, ms.len());
    assert(kept_before(ms, i + 1) <= kept_before(ms, ms.len() as int));
    assert forall|i2: int| i < i2 <= ms.len() implies kept_before(ms, i) < #[trigger] kept_before(ms, i2) by {
        assert(kept_before(ms, i + 1) <= kept_before(ms, i2));
    }
}

/// In the message list sent to the LLM every announced call is answered: for
/// each call with a non-blank id that a message still carries, a later `tool`
/// message answers that id. (Calls left without a result are stripped from
/// the message that announced them.)
pub proof fn law_every_kept_call_answered(
    target: i32,
    lines: Seq<GameLine>,
    calls: Seq<Option<Seq<ToolCallView>>>,
    results: Seq<Option<(Option<Seq<char>>, Seq<char>)>>,
    j: int,
    x: Seq<char>,
)
    requires
        0 <= j < built_messages(target, lines, calls, results).len(),
        carries(built_messages(target, lines, calls, results)[j], x),
        !blank(x),
    ensures
        exists|k: int|
            j < k < built_messages(target, lines, calls, results).len() && answers(
                #[trigger] built_messages(target, lines, calls, results)[k],
                x,
            ),
{
    let pre = collected_messages(target, lines, calls, results);
    let open = unanswered_ids(target, lines, calls, results);
    let ms = stripped_messages(target, lines, calls, results);
    let out = built_messages(target, lines, calls, results);
    lemma_collected_pairing(target, lines, calls, results);
    let i = lemma_built_source(target, lines, calls, results, j);
    if has_dangling_call(pre[i], open) {
        assert(ms[i].tool_calls is None);
    }
    assert(ms[i] == pre[i]);
    if open.contains(x) {
        let cs = pre[i].tool_calls->0;
        let t = choose|t: int| 0 <= t < cs.len() && (#[trigger] cs[t]).id == x;
        assert(open.contains(cs[t].id));
        assert(awaits_any(cs, open));
        assert(has_dangling_call(pre[i], open));
    }
    let k = choose|k: int| i < k < pre.len() && answers(pre[k], x);
    assert(ms[k] == strip_one(pre[k], open));
    assert(answers(ms[k], x));
    assert(carries(ms[i], x));
    assert(paired_at(ms, k));
    lemma_built_target(target, lines, calls, results, k);
    lemma_built_target(target, lines, calls, results, i);
    let p = kept_before(ms, k) as int;
    assert(out[p] == ms[k]);
    assert(j < p);
}

/// No unpaired result reaches the LLM: every `tool` message of the list
/// answers a non-blank call that an earlier message of the list still
/// carries.
pub proof fn law_no_unpaired_result(
    target: i32,
    lines: Seq<GameLine>,
    calls: Seq<Option<Seq<ToolCallView>>>,
    results: Seq<Option<(Option<Seq<char>>, Seq<char>)>>,
    k: int,
)
    requires
        0 <= k < built_messages(target, lines, calls, results).len(),
        built_messages(target, lines, calls, results)[k].role == role_tool(),
    ensures
        built_messages(target, lines, calls, results)[k].tool_call_id matches Some(x) && !blank(x) && exists|j: int|
            0 <= j < k && carries(#[trigger] built_messages(target, lines, calls, results)[j], x),
{
    let pre = collected_messages(target, lines, calls, results);
    let open = unanswered_ids(target, lines, calls, results);
    let ms = stripped_messages(target, lines, calls, results);
    let out = built_messages(target, lines, calls, results);
    lemma_collected_pairing(target, lines, calls, results);
    lemma_roles_distinct();
    let i = lemma_built_source(target, lines, calls, results, k);
    assert(ms[i].role == pre[i].role && ms[i].tool_call_id == pre[i].tool_call_id);
    let x = ms[i].tool_call_id->0;
    assert(pre[i].role == role_tool());
    assert(!blank(x));
    let i0 = choose|i0: int| 0 <= i0 < i && carries(ms[i0], x);
    assert(ms[i0] == strip_one(pre[i0], open));
    assert(ms[i0].tool_calls is Some);
    assert(pre[i0].tool_calls is Some);
    assert(pre[i0].role == role_assistant());
    assert(paired_at(ms, i0));
    lemma_built_target(target, lines, calls, results, i0);
    let j = kept_before(ms, i0) as int;
    assert(out[j] == ms[i0]);
    assert(j < k);
}

/// A message of one of the four kinds: `system`, `user` and `assistant`
/// messages answer no call, a `tool` message answers one, and only
/// `assistant` messages carry calls.
pub open spec fn well_shaped(m: MessageView) -> bool {
    &&& m.role == role_system() || m.role == role_user() || m.role == role_assistant() || m.role == role_tool()
    &&& (m.tool_call_id is Some <==> m.role == role_tool())
    &&& (m.tool_calls is Some ==> m.role == role_assistant())
}

pub open spec fn all_well_shaped(mem: Seq<MessageView>) -> bool {
    forall|i: int| 0 <= i < mem.len() ==> well_shaped(#[trigger] mem[i])
}

proof fn lemma_push_shaped(mem: Seq<MessageView>, m: MessageView)
    requires
        all_well_shaped(mem),
        well_shaped(m),
    ensures
        all_well_shaped(mem.push(m)),
{
    assert forall|i: int| 0 <= i < mem.push(m).len() implies well_shaped(#[trigger] mem.push(m)[i]) by {
        if i < mem.len() {
            assert(mem.push(m)[i] == mem[i]);
        }
    }
}

proof fn lemma_flush_shaped(st: BuildState)
    requires
        all_well_shaped(st.memory),
    ensures
        all_well_shaped(flushed(st).memory),
{
    lemma_flush_extends(st.memory, st.buffer, st.kind);
    lemma_roles_distinct();
    let f = flushed(st).memory;
    if f.len() == st.memory.len() + 1 {
        assert(f =~= st.memory.push(f.last()));
        lemma_push_shaped(st.memory, f.last());
    } else {
        assert(f =~= st.memory);
    }
}

proof fn lemma_step_shaped(
    target: i32,
    st: BuildState,
    line: GameLine,
    calls: Option<Seq<ToolCallView>>,
    result: Option<(Option<Seq<char>>, Seq<char>)>,
)
    requires
        all_well_shaped(st.memory),
    ensures
        all_well_shaped(step(target, st, line, calls, result).memory),
{
    lemma_roles_distinct();
    lemma_flush_shaped(st);
    let mem = flushed(st).memory;
    let b = line.base;
    let attr = b.attribute.0;
    if attr == LineAttribute::System {
        if b.sender_role_id == Some(target) && !st.has_system {
            lemma_push_shaped(mem, plain_message(role_system(), b.content@));
        }
    } else if announced_tool_calls(b) is Some && calls is Some {
        lemma_push_shaped(mem, tool_call_message(b, calls->0));
    } else if attr == LineAttribute::Tool {
        let fields = result_fields(result, b.content@);
        if let Some(id) = fields.0 {
            if st.open.contains(id) {
                lemma_push_shaped(mem, tool_message(id, fields.1));
            }
        }
    }
}

proof fn lemma_run_shaped(
    target: i32,
    lines: Seq<GameLine>,
    calls: Seq<Option<Seq<ToolCallView>>>,
    results: Seq<Option<(Option<Seq<char>>, Seq<char>)>>,
    n: nat,
)
    ensures
        all_well_shaped(run(target, lines, calls, results, n).memory),
    decreases n,
{
    if n > 0 {
        let k = (n - 1) as nat;
        lemma_run_shaped(target, lines, calls, results, k);
        lemma_step_shaped(target, run(target, lines, calls, results, k), lines[k as int], calls[k as int], results[k as int]);
    }
}

/// Every message of a character's list is well shaped: its role is
/// `system`, `user`, `assistant` or `tool`; it names a call it answers
/// exactly when it is a `tool` message; and only `assistant` messages carry
/// calls.
pub proof fn law_messages_well_shaped(
    target: i32,
    lines: Seq<GameLine>,
    calls: Seq<Option<Seq<ToolCallView>>>,
    results: Seq<Option<(Option<Seq<char>>, Seq<char>)>>,
)
    ensures
        all_well_shaped(built_messages(target, lines, calls, results)),
{
    let st = run(target, lines, calls, results, lines.len());
    lemma_run_shaped(target, lines, calls, results, lines.len());
    lemma_flush_shaped(st);
    let pre = collected_messages(target, lines, calls, results);
    let open = unanswered_ids(target, lines, calls, results);
    let out = built_messages(target, lines, calls, results);
    assert forall|k: int| 0 <= k < out.len() implies well_shaped(#[trigger] out[k]) by {
        let i = lemma_built_source(target, lines, calls, results, k);
        assert(well_shaped(pre[i]));
    }
}

/// Registering the same calls twice awaits the same ids as registering them
/// once.
pub proof fn law_register_idempotent(open: Set<Seq<char>>, cs: Seq<ToolCallView>)
    ensures
        open.union(call_ids(cs)).union(call_ids(cs)) == open.union(call_ids(cs)),
{
    assert(open.union(call_ids(cs)).union(call_ids(cs)) =~= open.union(call_ids(cs)));
}

/// A `tool` message answering an id that awaits a result again is followed
/// by a message announcing that id anew.
pub open spec fn reannounced_after_answer(mem: Seq<MessageView>, open: Set<Seq<char>>) -> bool {
    forall|k: int, x: Seq<char>|
        0 <= k < mem.len() && #[trigger] answers(mem[k], x) && open.contains(x) ==> exists|j: int|
            k < j < mem.len() && carries(mem[j], x)
}

/// Between two `tool` messages answering the same id lies a message
/// announcing that id anew.
pub open spec fn answers_separated(mem: Seq<MessageView>) -> bool {
    forall|k1: int, k2: int, x: Seq<char>|
        0 <= k1 < k2 < mem.len() && #[trigger] answers(mem[k1], x) && #[trigger] answers(mem[k2], x) ==> exists|j: int|
            k1 < j < k2 && carries(mem[j], x)
}

pub open spec fn repeats_ok(mem: Seq<MessageView>, open: Set<Seq<char>>) -> bool {
    reannounced_after_answer(mem, open) && answers_separated(mem)
}

proof fn lemma_push_plain_repeats(mem: Seq<MessageView>, open: Set<Seq<char>>, m: MessageView)
    requires
        repeats_ok(mem, open),
        m.role != role_tool(),
    ensures
        repeats_ok(mem.push(m), open),
{
    let m2 = mem.push(m);
    assert forall|k: int, x: Seq<char>| 0 <= k < m2.len() && #[trigger] answers(m2[k], x) && open.contains(x) implies exists|j: int|
        k < j < m2.len() && carries(m2[j], x) by {
        assert(k < mem.len());
        assert(m2[k] == mem[k]);
        let j = choose|j: int| k < j < mem.len() && carries(mem[j], x);
        assert(m2[j] == mem[j]);
    }
    assert forall|k1: int, k2: int, x: Seq<char>| 0 <= k1 < k2 < m2.len() && #[trigger] answers(m2[k1], x) && #[trigger] answers(m2[k2], x) implies exists|j: int|
        k1 < j < k2 && carries(m2[j], x) by {
        assert(k2 < mem.len());
        assert(m2[k1] == mem[k1]);
        assert(m2[k2] == mem[k2]);
        let j = choose|j: int| k1 < j < k2 && carries(mem[j], x);
        assert(m2[j] == mem[j]);
    }
}

proof fn lemma_flush_repeats(st: BuildState)
    requires
        repeats_ok(st.memory, st.open),
    ensures
        repeats_ok(flushed(st).memory, st.open),
{
    lemma_flush_extends(st.memory, st.buffer, st.kind);
    lemma_roles_distinct();
    let f = flushed(st).memory;
    if f.len() == st.memory.len() + 1 {
        assert(f =~= st.memory.push(f.last()));
        lemma_push_plain_repeats(st.memory, st.open, f.last());
    } else {
        assert(f =~= st.memory);
    }
}

proof fn lemma_step_repeats(
    target: i32,
    st: BuildState,
    line: GameLine,
    calls: Option<Seq<ToolCallView>>,
    result: Option<(Option<Seq<char>>, Seq<char>)>,
)
    requires
        repeats_ok(st.memory, st.open),
        pairing_ok(st.memory, st.open),
    ensures
        ({
            let s2 = step(target, st, line, calls, result);
            repeats_ok(s2.memory, s2.open)
        }),
{
    lemma_roles_distinct();
    lemma_flush_repeats(st);
    let mem = flushed(st).memory;
    let open = st.open;
    let s2 = step(target, st, line, calls, result);
    let b = line.base;
    let attr = b.attribute.0;
    if attr == LineAttribute::System {
        if b.sender_role_id == Some(target) && !st.has_system {
            lemma_push_plain_repeats(mem, open, plain_message(role_system(), b.content@));
        }
    } else if announced_tool_calls(b) is Some && calls is Some {
        let cs = calls->0;
        let m2 = s2.memory;
        let o2 = s2.open;
        assert(m2 == mem.push(tool_call_message(b, cs)));
        assert(o2 == open.union(call_ids(cs)));
        assert forall|k: int, x: Seq<char>| 0 <= k < m2.len() && #[trigger] answers(m2[k], x) && o2.contains(x) implies exists|j: int|
            k < j < m2.len() && carries(m2[j], x) by {
            assert(k < mem.len());
            assert(m2[k] == mem[k]);
            if open.contains(x) {
                let j = choose|j: int| k < j < mem.len() && carries(mem[j], x);
                assert(m2[j] == mem[j]);
            } else {
                let i = choose|i: int| 0 <= i < cs.len() && (#[trigger] cs[i]).id == x && !blank(x);
                assert(carries(m2[mem.len() as int], x));
            }
        }
        assert forall|k1: int, k2: int, x: Seq<char>| 0 <= k1 < k2 < m2.len() && #[trigger] answers(m2[k1], x) && #[trigger] answers(m2[k2], x) implies exists|j: int|
            k1 < j < k2 && carries(m2[j], x) by {
            assert(k2 < mem.len());
            assert(m2[k1] == mem[k1]);
            assert(m2[k2] == mem[k2]);
            let j = choose|j: int| k1 < j < k2 && carries(mem[j], x);
            assert(m2[j] == mem[j]);
        }
    } else if attr == LineAttribute::Tool {
        let fields = result_fields(result, b.content@);
        if fields.0 is Some && st.open.contains(fields.0->0) {
            let x = fields.0->0;
            let m2 = s2.memory;
            let o2 = s2.open;
            assert(m2 == mem.push(tool_message(x, fields.1)));
            assert(o2 == open.remove(x));
            assert forall|k: int, y: Seq<char>| 0 <= k < m2.len() && #[trigger] answers(m2[k], y) && o2.contains(y) implies exists|j: int|
                k < j < m2.len() && carries(m2[j], y) by {
                assert(y != x);
                assert(k < mem.len());
                assert(m2[k] == mem[k]);
                let j = choose|j: int| k < j < mem.len() && carries(mem[j], y);
                assert(m2[j] == mem[j]);
            }
            assert forall|k1: int, k2: int, y: Seq<char>| 0 <= k1 < k2 < m2.len() && #[trigger] answers(m2[k1], y) && #[trigger] answers(m2[k2], y) implies exists|j: int|
                k1 < j < k2 && carries(m2[j], y) by {
                assert(m2[k1] == mem[k1]);
                if k2 < mem.len() {
                    assert(m2[k2] == mem[k2]);
                    let j = choose|j: int| k1 < j < k2 && carries(mem[j], y);
                    assert(m2[j] == mem[j]);
                } else {
                    assert(y == x);
                    let j = choose|j: int| k1 < j < mem.len() && carries(mem[j], y);
                    assert(m2[j] == mem[j]);
                }
            }
        }
    }
}

proof fn lemma_run_repeats(
    target: i32,
    lines: Seq<GameLine>,
    calls: Seq<Option<Seq<ToolCallView>>>,
    results: Seq<Option<(Option<Seq<char>>, Seq<char>)>>,
    n: nat,
)
    ensures
        ({
            let st = run(target, lines, calls, results, n);
            repeats_ok(st.memory, st.open)
        }),
    decreases n,
{
    if n > 0 {
        let k = (n - 1) as nat;
        lemma_run_repeats(target, lines, calls, results, k);
        lemma_run_pairing(target, lines, calls, results, k);
        lemma_step_repeats(target, run(target, lines, calls, results, k), lines[k as int], calls[k as int], results[k as int]);
    }
}

/// A call id is answered at most once per announcement: between two `tool`
/// messages answering the same id lies a message announcing it anew. Stated
/// of the messages before calls are stripped (stripping changes no role and
/// no answered id).
pub proof fn law_one_answer_per_announcement(
    target: i32,
    lines: Seq<GameLine>,
    calls: Seq<Option<Seq<ToolCallView>>>,
    results: Seq<Option<(Option<Seq<char>>, Seq<char>)>>,
)
    ensures
        answers_separated(collected_messages(target, lines, calls, results)),
{
    let st = run(target, lines, calls, results, lines.len());
    lemma_run_repeats(target, lines, calls, results, lines.len());
    lemma_flush_repeats(st);
}

/// When no id is announced by two messages, the `tool` messages answer
/// pairwise distinct ids: a repeated result for one call is dropped.
pub proof fn law_answers_distinct_when_announced_once(
    target: i32,
    lines: Seq<GameLine>,
    calls: Seq<Option<Seq<ToolCallView>>>,
    results: Seq<Option<(Option<Seq<char>>, Seq<char>)>>,
    k1: int,
    k2: int,
    x: Seq<char>,
)
    requires
        forall|j1: int, j2: int|
            0 <= j1 < collected_messages(target, lines, calls, results).len() && 0 <= j2
                < collected_messages(target, lines, calls, results).len() && carries(
                #[trigger] collected_messages(target, lines, calls, results)[j1],
                x,
            ) && carries(#[trigger] collected_messages(target, lines, calls, results)[j2], x) ==> j1 == j2,
        0 <= k1 < k2 < built_messages(target, lines, calls, results).len(),
    ensures
        !(answers(built_messages(target, lines, calls, results)[k1], x) && answers(
            built_messages(target, lines, calls, results)[k2],
            x,
        )),
{
    let pre = collected_messages(target, lines, calls, results);
    let open = unanswered_ids(target, lines, calls, results);
    let out = built_messages(target, lines, calls, results);
    if answers(out[k1], x) && answers(out[k2], x) {
        let i1 = lemma_built_source(target, lines, calls, results, k1);
        let i2 = lemma_built_source(target, lines, calls, results, k2);
        let ms = stripped_messages(target, lines, calls, results);
        if i2 <= i1 {
            lemma_built_target(target, lines, calls, results, i2);
            if i2 < i1 {
                assert(kept_before(ms, i2) < kept_before(ms, i1));
            }
        }
        assert(i1 < i2);
        assert(answers(pre[i1], x));
        assert(answers(pre[i2], x));
        law_one_answer_per_announcement(target, lines, calls, results);
        lemma_collected_pairing(target, lines, calls, results);
        let j = choose|j: int| i1 < j < i2 && carries(pre[j], x);
        assert(pre[i1].role == role_tool());
        let j0 = choose|j0: int| 0 <= j0 < i1 && carries(pre[j0], x);
        assert(carries(pre[j0], x) && carries(pre[j], x));
    }
}

/// A line that is neither a persona nor a tool-result line, is not taken as
/// a tool-call line, and that the target neither sent nor perceived.
pub open spec fn unseen_line(target: i32, l: GameLine, cl: Option<Seq<ToolCallView>>) -> bool {
    &&& l.base.attribute.0 != LineAttribute::System
    &&& l.base.attribute.0 != LineAttribute::Tool
    &&& !(announced_tool_calls(l.base) is Some && cl is Some)
    &&& !concerns(target, l)
}

/// Running over a prefix of the lines only reads that prefix.
proof fn lemma_run_prefix(
    target: i32,
    a: Seq<GameLine>,
    ca: Seq<Option<Seq<ToolCallView>>>,
    ra: Seq<Option<(Option<Seq<char>>, Seq<char>)>>,
    b: Seq<GameLine>,
    cb: Seq<Option<Seq<ToolCallView>>>,
    rb: Seq<Option<(Option<Seq<char>>, Seq<char>)>>,
    n: nat,
)
    requires
        n <= a.len(),
        n <= b.len(),
        n <= ca.len(),
        n <= cb.len(),
        n <= ra.len(),
        n <= rb.len(),
        forall|i: int| 0 <= i < n ==> a[i] == b[i] && ca[i] == cb[i] && ra[i] == rb[i],
    ensures
        run(target, a, ca, ra, n) == run(target, b, cb, rb, n),
    decreases n,
{
    if n > 0 {
        lemma_run_prefix(target, a, ca, ra, b, cb, rb, (n - 1) as nat);
    }
}

/// A line the target neither sent nor perceived changes nothing: the
/// character's message list is the same with or without it, block
/// boundaries included.
pub proof fn law_unseen_line_changes_nothing(
    target: i32,
    xs: Seq<GameLine>,
    l: GameLine,
    ys: Seq<GameLine>,
    cx: Seq<Option<Seq<ToolCallView>>>,
    cl: Option<Seq<ToolCallView>>,
    cy: Seq<Option<Seq<ToolCallView>>>,
    rx: Seq<Option<(Option<Seq<char>>, Seq<char>)>>,
    rl: Option<(Option<Seq<char>>, Seq<char>)>,
    ry: Seq<Option<(Option<Seq<char>>, Seq<char>)>>,
)
    requires
        cx.len() == xs.len(),
        rx.len() == xs.len(),
        cy.len() == ys.len(),
        ry.len() == ys.len(),
        unseen_line(target, l, cl),
    ensures
        built_messages(target, xs + seq![l] + ys, cx + seq![cl] + cy, rx + seq![rl] + ry)
            == built_messages(target, xs + ys, cx + cy, rx + ry),
{
    let a = xs + seq![l] + ys;
    let ca = cx + seq![cl] + cy;
    let ra = rx + seq![rl] + ry;
    let b = xs + ys;
    let cb = cx + cy;
    let rb = rx + ry;
    let n = xs.len();
    lemma_run_prefix(target, a, ca, ra, b, cb, rb, n);
    assert(a[n as int] == l && ca[n as int] == cl && ra[n as int] == rl);
    assert(run(target, a, ca, ra, n + 1) == run(target, b, cb, rb, n));
    lemma_run_skip(target, a, ca, ra, b, cb, rb, n, ys.len());
}

/// After the skipped line, both runs take the same lines in.
proof fn lemma_run_skip(
    target: i32,
    a: Seq<GameLine>,
    ca: Seq<Option<Seq<ToolCallView>>>,
    ra: Seq<Option<(Option<Seq<char>>, Seq<char>)>>,
    b: Seq<GameLine>,
    cb: Seq<Option<Seq<ToolCallView>>>,
    rb: Seq<Option<(Option<Seq<char>>, Seq<char>)>>,
    n: nat,
    m: nat,
)
    requires
        n + 1 + m <= a.len(),
        a.len() == b.len() + 1,
        ca.len() == a.len(),
        ra.len() == a.len(),
        cb.len() == b.len(),
        rb.len() == b.len(),
        forall|i: int| n < i < a.len() ==> a[i] == b[i - 1] && ca[i] == cb[i - 1] && ra[i] == rb[i - 1],
        run(target, a, ca, ra, n + 1) == run(target, b, cb, rb, n),
    ensures
        run(target, a, ca, ra, n + 1 + m) == run(target, b, cb, rb, n + m),
    decreases m,
{
    if m > 0 {
        lemma_run_skip(target, a, ca, ra, b, cb, rb, n, (m - 1) as nat);
        assert(a[(n + m) as int] == b[(n + m - 1) as int]);
        assert(ca[(n + m) as int] == cb[(n + m - 1) as int]);
        assert(ra[(n + m) as int] == rb[(n + m - 1) as int]);
    }
}


/// Line `i` is taken in as a tool-call line whose decoded calls hold id `x`.
pub open spec fn line_announces(
    lines: Seq<GameLine>,
    calls: Seq<Option<Seq<ToolCallView>>>,
    i: int,
    x: Seq<char>,
) -> bool {
    &&& announced_tool_calls(lines[i].base) is Some
    &&& calls[i] matches Some(cs) && has_call_id(cs, x)
}

/// Every message carrying `x` comes from one of the first `n` lines
/// announcing `x`, and two such messages from two different lines.
pub open spec fn origins_ok(
    mem: Seq<MessageView>,
    lines: Seq<GameLine>,
    calls: Seq<Option<Seq<ToolCallView>>>,
    n: int,
    x: Seq<char>,
) -> bool {
    &&& forall|j: int|
        0 <= j < mem.len() && #[trigger] carries(mem[j], x) ==> exists|i: int|
            0 <= i < n && line_announces(lines, calls, i, x)
    &&& forall|j1: int, j2: int|
        0 <= j1 < j2 < mem.len() && #[trigger] carries(mem[j1], x) && #[trigger] carries(mem[j2], x) ==> exists|
            i1: int,
            i2: int,
        | 0 <= i1 < i2 < n && line_announces(lines, calls, i1, x) && line_announces(lines, calls, i2, x)
}

proof fn lemma_origins_push(
    mem: Seq<MessageView>,
    lines: Seq<GameLine>,
    calls: Seq<Option<Seq<ToolCallView>>>,
    n: int,
    x: Seq<char>,
    m: MessageView,
)
    requires
        origins_ok(mem, lines, calls, n - 1, x),
        carries(m, x) ==> line_announces(lines, calls, n - 1, x),
        n >= 1,
    ensures
        origins_ok(mem.push(m), lines, calls, n, x),
{
    let m2 = mem.push(m);
    assert forall|j: int| 0 <= j < m2.len() && #[trigger] carries(m2[j], x) implies exists|i: int|
        0 <= i < n && line_announces(lines, calls, i, x) by {
        if j < mem.len() {
            assert(m2[j] == mem[j]);
            let i = choose|i: int| 0 <= i < n - 1 && line_announces(lines, calls, i, x);
        } else {
            assert(line_announces(lines, calls, n - 1, x));
        }
    }
    assert forall|j1: int, j2: int| 0 <= j1 < j2 < m2.len() && #[trigger] carries(m2[j1], x) && #[trigger] carries(m2[j2], x) implies exists|
        i1: int,
        i2: int,
    | 0 <= i1 < i2 < n && line_announces(lines, calls, i1, x) && line_announces(lines, calls, i2, x) by {
        assert(m2[j1] == mem[j1]);
        if j2 < mem.len() {
            assert(m2[j2] == mem[j2]);
            let (i1, i2) = choose|i1: int, i2: int|
                0 <= i1 < i2 < n - 1 && line_announces(lines, calls, i1, x) && line_announces(lines, calls, i2, x);
        } else {
            assert(carries(mem[j1], x));
            let i1 = choose|i: int| 0 <= i < n - 1 && line_announces(lines, calls, i, x);
            assert(line_announces(lines, calls, n - 1, x));
            assert(0 <= i1 < n - 1 < n);
        }
    }
}

proof fn lemma_origins_widen(
    mem: Seq<MessageView>,
    lines: Seq<GameLine>,
    calls: Seq<Option<Seq<ToolCallView>>>,
    n: int,
    x: Seq<char>,
)
    requires
        origins_ok(mem, lines, calls, n - 1, x),
    ensures
        origins_ok(mem, lines, calls, n, x),
{
    assert forall|j: int| 0 <= j < mem.len() && #[trigger] carries(mem[j], x) implies exists|i: int|
        0 <= i < n && line_announces(lines, calls, i, x) by {
        let i = choose|i: int| 0 <= i < n - 1 && line_announces(lines, calls, i, x);
    }
    assert forall|j1: int, j2: int| 0 <= j1 < j2 < mem.len() && #[trigger] carries(mem[j1], x) && #[trigger] carries(mem[j2], x) implies exists|
        i1: int,
        i2: int,
    | 0 <= i1 < i2 < n && line_announces(lines, calls, i1, x) && line_announces(lines, calls, i2, x) by {
        let (i1, i2) = choose|i1: int, i2: int|
            0 <= i1 < i2 < n - 1 && line_announces(lines, calls, i1, x) && line_announces(lines, calls, i2, x);
    }
}

/// Writing the buffer out adds no message carrying calls.
proof fn lemma_flush_origins(
    st: BuildState,
    lines: Seq<GameLine>,
    calls: Seq<Option<Seq<ToolCallView>>>,
    n: int,
    x: Seq<char>,
)
    requires
        origins_ok(st.memory, lines, calls, n, x),
        n >= 0,
    ensures
        origins_ok(flushed(st).memory, lines, calls, n, x),
{
    lemma_flush_extends(st.memory, st.buffer, st.kind);
    let f = flushed(st).memory;
    if f.len() == st.memory.len() + 1 {
        assert(f =~= st.memory.push(f.last()));
        lemma_origins_widen(st.memory, lines, calls, n + 1, x);
        lemma_origins_push_same(st.memory, lines, calls, n, x, f.last());
    } else {
        assert(f =~= st.memory);
    }
}

/// Appending a message that carries no call keeps the origins.
proof fn lemma_origins_push_same(
    mem: Seq<MessageView>,
    lines: Seq<GameLine>,
    calls: Seq<Option<Seq<ToolCallView>>>,
    n: int,
    x: Seq<char>,
    m: MessageView,
)
    requires
        origins_ok(mem, lines, calls, n, x),
        m.tool_calls is None,
    ensures
        origins_ok(mem.push(m), lines, calls, n, x),
{
    let m2 = mem.push(m);
    assert forall|j: int| 0 <= j < m2.len() && #[trigger] carries(m2[j], x) implies exists|i: int|
        0 <= i < n && line_announces(lines, calls, i, x) by {
        assert(j < mem.len());
        assert(m2[j] == mem[j]);
    }
    assert forall|j1: int, j2: int| 0 <= j1 < j2 < m2.len() && #[trigger] carries(m2[j1], x) && #[trigger] carries(m2[j2], x) implies exists|
        i1: int,
        i2: int,
    | 0 <= i1 < i2 < n && line_announces(lines, calls, i1, x) && line_announces(lines, calls, i2, x) by {
        assert(j2 < mem.len());
        assert(m2[j1] == mem[j1]);
        assert(m2[j2] == mem[j2]);
    }
}

proof fn lemma_run_origins(
    target: i32,
    lines: Seq<GameLine>,
    calls: Seq<Option<Seq<ToolCallView>>>,
    results: Seq<Option<(Option<Seq<char>>, Seq<char>)>>,
    n: nat,
    x: Seq<char>,
)
    ensures
        origins_ok(run(target, lines, calls, results, n).memory, lines, calls, n as int, x),
    decreases n,
{
    if n > 0 {
        let k = (n - 1) as nat;
        lemma_run_origins(target, lines, calls, results, k, x);
        let st = run(target, lines, calls, results, k);
        let line = lines[k as int];
        let b = line.base;
        let attr = b.attribute.0;
        lemma_flush_origins(st, lines, calls, k as int, x);
        let mem = flushed(st).memory;
        if attr == LineAttribute::System {
            if b.sender_role_id == Some(target) && !st.has_system {
                lemma_origins_push_same(mem, lines, calls, k as int, x, plain_message(role_system(), b.content@));
                lemma_origins_widen(mem.push(plain_message(role_system(), b.content@)), lines, calls, n as int, x);
            } else if b.sender_role_id == Some(target) {
                lemma_origins_widen(mem, lines, calls, n as int, x);
            } else {
                lemma_origins_widen(st.memory, lines, calls, n as int, x);
            }
        } else if announced_tool_calls(b) is Some && calls[k as int] is Some {
            let cs = calls[k as int]->0;
            let m = tool_call_message(b, cs);
            if carries(m, x) {
                assert(has_call_id(cs, x));
                assert(line_announces(lines, calls, k as int, x));
            }
            lemma_origins_push(mem, lines, calls, n as int, x, m);
        } else if attr == LineAttribute::Tool {
            let fields = result_fields(results[k as int], b.content@);
            if fields.0 is Some && st.open.contains(fields.0->0) {
                let m = tool_message(fields.0->0, fields.1);
                lemma_origins_push_same(mem, lines, calls, k as int, x, m);
                lemma_origins_widen(mem.push(m), lines, calls, n as int, x);
            } else {
                lemma_origins_widen(mem, lines, calls, n as int, x);
            }
        } else {
            lemma_origins_widen(st.memory, lines, calls, n as int, x);
            lemma_origins_widen(mem, lines, calls, n as int, x);
        }
    }
}

/// When no id is announced by two tool-call lines, the `tool` messages of
/// the list answer pairwise distinct ids: a repeated result for one call is
/// dropped.
pub proof fn law_answers_distinct_when_lines_announce_once(
    target: i32,
    lines: Seq<GameLine>,
    calls: Seq<Option<Seq<ToolCallView>>>,
    results: Seq<Option<(Option<Seq<char>>, Seq<char>)>>,
    k1: int,
    k2: int,
    x: Seq<char>,
)
    requires
        forall|i1: int, i2: int|
            0 <= i1 < lines.len() && 0 <= i2 < lines.len() && #[trigger] line_announces(lines, calls, i1, x)
                && #[trigger] line_announces(lines, calls, i2, x) ==> i1 == i2,
        0 <= k1 < k2 < built_messages(target, lines, calls, results).len(),
    ensures
        !(answers(built_messages(target, lines, calls, results)[k1], x) && answers(
            built_messages(target, lines, calls, results)[k2],
            x,
        )),
{
    let st = run(target, lines, calls, results, lines.len());
    lemma_run_origins(target, lines, calls, results, lines.len(), x);
    lemma_flush_origins(st, lines, calls, lines.len() as int, x);
    let pre = collected_messages(target, lines, calls, results);
    assert forall|j1: int, j2: int|
        0 <= j1 < pre.len() && 0 <= j2 < pre.len() && carries(#[trigger] pre[j1], x) && carries(#[trigger] pre[j2], x) implies j1 == j2 by {
        if j1 < j2 {
            let (i1, i2) = choose|i1: int, i2: int|
                0 <= i1 < i2 < lines.len() && line_announces(lines, calls, i1, x) && line_announces(lines, calls, i2, x);
        } else if j2 < j1 {
            let (i1, i2) = choose|i1: int, i2: int|
                0 <= i1 < i2 < lines.len() && line_announces(lines, calls, i1, x) && line_announces(lines, calls, i2, x);
        }
    }
    law_answers_distinct_when_announced_once(target, lines, calls, results, k1, k2, x);
}

/// How one of the character's own lines is decorated: with no decoration it
/// is its content and a blank line; a non-empty emotion is put in front as
/// `【emotion】`; a non-empty action adds the line `(action)` after the
/// content; a non-empty speech-synthesis text adds the line `<tts>` after
/// that; an empty text counts as absent. Each decoration depends on its own
/// field alone.
pub proof fn law_own_line_decorations(b: LineBase)
    ensures
        extras_text(LineBase { original_emotion: None, action_content: None, tts_content: None, ..b })
            == b.content@ + seq!['\n', '\n'],
        b.original_emotion matches Some(e) ==> e@.len() > 0 ==> extras_text(b) == seq!['【'] + e@ + seq!['】']
            + extras_text(LineBase { original_emotion: None, ..b }),
        b.action_content matches Some(a) ==> a@.len() > 0 ==> extras_text(LineBase { tts_content: None, ..b })
            == extras_text(LineBase { action_content: None, tts_content: None, ..b }).drop_last() + seq!['('] + a@
            + seq![')', '\n', '\n'],
        b.tts_content matches Some(t) ==> t@.len() > 0 ==> extras_text(b) == extras_text(
            LineBase { tts_content: None, ..b },
        ).drop_last() + seq!['<'] + t@ + seq!['>', '\n', '\n'],
        (b.original_emotion matches Some(e) && e@.len() == 0) ==> extras_text(b) == extras_text(
            LineBase { original_emotion: None, ..b },
        ),
        (b.action_content matches Some(a) && a@.len() == 0) ==> extras_text(b) == extras_text(
            LineBase { action_content: None, ..b },
        ),
        (b.tts_content matches Some(t) && t@.len() == 0) ==> extras_text(b) == extras_text(
            LineBase { tts_content: None, ..b },
        ),
{
    let bare = LineBase { original_emotion: None, action_content: None, tts_content: None, ..b };
    assert(extras_text(bare) =~= b.content@ + seq!['\n', '\n']);
    let e_part = wrap(seq!['【'], nonempty(b.original_emotion), seq!['】']);
    let a_part = wrap(seq!['('], nonempty(b.action_content), seq![')', '\n']);
    let t_part = wrap(seq!['<'], nonempty(b.tts_content), seq!['>', '\n']);
    let no_e = LineBase { original_emotion: None, ..b };
    assert(extras_text(b) =~= e_part + extras_text(no_e));
    let no_t = LineBase { tts_content: None, ..b };
    let no_at = LineBase { action_content: None, tts_content: None, ..b };
    let head = e_part + b.content@ + seq!['\n'];
    assert(extras_text(no_at) =~= head + seq!['\n']);
    assert(extras_text(no_at).drop_last() =~= head);
    assert(extras_text(no_t) =~= head + a_part + seq!['\n']);
    assert(extras_text(no_t).drop_last() =~= head + a_part);
    assert(extras_text(b) =~= head + a_part + t_part + seq!['\n']);
    if let Some(a) = b.action_content {
        assert(a@.len() > 0 ==> a_part == seq!['('] + a@ + seq![')', '\n']);
        assert(a@.len() > 0 ==> extras_text(no_t) =~= extras_text(no_at).drop_last() + seq!['('] + a@ + seq![')', '\n', '\n']);
    }
    if let Some(t) = b.tts_content {
        assert(t@.len() > 0 ==> t_part == seq!['<'] + t@ + seq!['>', '\n']);
        assert(t@.len() > 0 ==> extras_text(b) =~= extras_text(no_t).drop_last() + seq!['<'] + t@ + seq!['>', '\n', '\n']);
    }
    assert(extras_text(LineBase { action_content: None, ..b }) =~= head + t_part + seq!['\n']);
}


/// Taking a line in keeps every message written so far.
proof fn lemma_step_extends(
    target: i32,
    st: BuildState,
    line: GameLine,
    calls: Option<Seq<ToolCallView>>,
    result: Option<(Option<Seq<char>>, Seq<char>)>,
)
    ensures
        st.memory.len() <= step(target, st, line, calls, result).memory.len(),
        forall|i: int| 0 <= i < st.memory.len() ==> #[trigger] step(target, st, line, calls, result).memory[i] == st.memory[i],
{
    lemma_flush_extends(st.memory, st.buffer, st.kind);
}

/// The messages after `n1` lines are kept after `n2 >= n1` lines.
proof fn lemma_run_extends(
    target: i32,
    lines: Seq<GameLine>,
    calls: Seq<Option<Seq<ToolCallView>>>,
    results: Seq<Option<(Option<Seq<char>>, Seq<char>)>>,
    n1: nat,
    n2: nat,
)
    requires
        n1 <= n2,
    ensures
        run(target, lines, calls, results, n1).memory.len() <= run(target, lines, calls, results, n2).memory.len(),
        forall|i: int|
            0 <= i < run(target, lines, calls, results, n1).memory.len() ==> #[trigger] run(
                target,
                lines,
                calls,
                results,
                n2,
            ).memory[i] == run(target, lines, calls, results, n1).memory[i],
    decreases n2,
{
    if n1 < n2 {
        let k = (n2 - 1) as nat;
        lemma_run_extends(target, lines, calls, results, n1, k);
        lemma_step_extends(target, run(target, lines, calls, results, k), lines[k as int], calls[k as int], results[k as int]);
    }
}

/// The message a tool-call line makes stays in the list sent to the LLM,
/// with or without its calls.
proof fn lemma_tool_call_message_kept(
    target: i32,
    lines: Seq<GameLine>,
    calls: Seq<Option<Seq<ToolCallView>>>,
    results: Seq<Option<(Option<Seq<char>>, Seq<char>)>>,
    i: int,
)
    requires
        tool_call_line_at(lines, calls, i),
    ensures
        exists|j: int|
            0 <= j < built_messages(target, lines, calls, results).len() && {
                let m = #[trigger] built_messages(target, lines, calls, results)[j];
                &&& m.role == role_assistant()
                &&& m.content == tool_call_text(lines[i].base)
                &&& m.tool_call_id is None
                &&& (m.tool_calls is None || m.tool_calls == calls[i])
            },
{
    let n = lines.len();
    let st = run(target, lines, calls, results, i as nat);
    let after = run(target, lines, calls, results, (i + 1) as nat);
    lemma_roles_distinct();
    assert(after == step(target, st, lines[i], calls[i], results[i]));
    let msg = tool_call_message(lines[i].base, calls[i]->0);
    assert(after.memory == flushed(st).memory.push(msg));
    let p = after.memory.len() - 1;
    assert(after.memory[p] == msg);
    lemma_run_extends(target, lines, calls, results, (i + 1) as nat, n);
    let fin = run(target, lines, calls, results, n);
    assert(fin.memory[p] == msg);
    lemma_flush_extends(fin.memory, fin.buffer, fin.kind);
    let pre = collected_messages(target, lines, calls, results);
    assert(pre[p] == msg);
    let ms = stripped_messages(target, lines, calls, results);
    let open = unanswered_ids(target, lines, calls, results);
    assert(ms[p] == strip_one(pre[p], open));
    assert(paired_at(ms, p));
    lemma_built_target(target, lines, calls, results, p);
    let out = built_messages(target, lines, calls, results);
    let j = kept_before(ms, p) as int;
    assert(out[j] == ms[p]);
}

/// A tool-call line whose calls come in its `tool_call` field speaks its
/// content with them: the list sent to the LLM holds an `assistant` message
/// whose text is exactly the line's content and that carries the line's
/// calls, or no calls once they were stripped for want of a result.
pub proof fn law_tool_call_message_keeps_line_content(
    target: i32,
    lines: Seq<GameLine>,
    calls: Seq<Option<Seq<ToolCallView>>>,
    results: Seq<Option<(Option<Seq<char>>, Seq<char>)>>,
    i: int,
)
    requires
        0 <= i < lines.len(),
        lines[i].base.attribute.0 == LineAttribute::Assistant,
        lines[i].base.tool_call matches Some(t) && t@.len() > 0,
        calls[i] is Some,
    ensures
        exists|j: int|
            0 <= j < built_messages(target, lines, calls, results).len() && {
                let m = #[trigger] built_messages(target, lines, calls, results)[j];
                &&& m.role == role_assistant()
                &&& m.content == lines[i].base.content@
                &&& m.tool_call_id is None
                &&& (m.tool_calls is None || m.tool_calls == calls[i])
            },
{
    assert(tool_call_line_at(lines, calls, i));
    lemma_tool_call_message_kept(target, lines, calls, results, i);
}

/// An old-style tool-call line (no `tool_call` field; the calls' JSON, a
/// blank line, then the text) speaks the text after its first blank line
/// with its calls, and nothing when it has no blank line: the list sent to
/// the LLM holds an `assistant` message with that text that carries the
/// line's calls, or no calls once they were stripped for want of a result.
pub proof fn law_old_style_tool_call_message_keeps_text(
    target: i32,
    lines: Seq<GameLine>,
    calls: Seq<Option<Seq<ToolCallView>>>,
    results: Seq<Option<(Option<Seq<char>>, Seq<char>)>>,
    i: int,
)
    requires
        0 <= i < lines.len(),
        lines[i].base.attribute.0 == LineAttribute::Assistant,
        lines[i].base.tool_call is None || lines[i].base.tool_call->0@.len() == 0,
        lines[i].base.content@.len() > 0,
        calls[i] is Some,
    ensures
        exists|j: int|
            0 <= j < built_messages(target, lines, calls, results).len() && {
                let m = #[trigger] built_messages(target, lines, calls, results)[j];
                let c = lines[i].base.content@;
                &&& m.role == role_assistant()
                &&& (forall|q: int| 0 <= q && q + 1 < c.len() ==> !(#[trigger] c[q] == '\n' && c[q + 1] == '\n')) ==> m.content.len() == 0
                &&& forall|q: int|
                    0 <= q && q + 1 < c.len() && #[trigger] c[q] == '\n' && c[q + 1] == '\n' && (forall|r: int|
                        0 <= r < q ==> !(#[trigger] c[r] == '\n' && c[r + 1] == '\n')) ==> m.content == c.skip(q + 2)
                &&& m.tool_call_id is None
                &&& (m.tool_calls is None || m.tool_calls == calls[i])
            },
{
    let c = lines[i].base.content@;
    assert(tool_call_line_at(lines, calls, i));
    lemma_tool_call_message_kept(target, lines, calls, results, i);
    if exists|q: int| is_first_break(c, q) {
        let q0 = choose|q: int| is_first_break(c, q);
        assert forall|q: int|
            0 <= q && q + 1 < c.len() && #[trigger] c[q] == '\n' && c[q + 1] == '\n' && (forall|r: int|
                0 <= r < q ==> !(#[trigger] c[r] == '\n' && c[r + 1] == '\n')) implies q == q0 by {
            assert(is_first_break(c, q));
            lemma_first_break_unique(c, q, q0);
        }
    } else {
        assert forall|q: int|
            0 <= q && q + 1 < c.len() && #[trigger] c[q] == '\n' && c[q + 1] == '\n' implies !(forall|r: int|
                0 <= r < q ==> !(#[trigger] c[r] == '\n' && c[r + 1] == '\n')) by {
            assert(!is_first_break(c, q));
        }
    }
}

/// `b` is one of the lines, and the character's own speech: an `Assistant`
/// line the character sent.
pub open spec fn own_speech_line(target: i32, lines: Seq<GameLine>, b: LineBase) -> bool {
    &&& b.attribute.0 == LineAttribute::Assistant
    &&& b.sender_role_id == Some(target)
    &&& exists|i: int| 0 <= i < lines.len() && #[trigger] lines[i].base == b
}

/// A non-empty run of the character's own speech lines.
pub open spec fn own_speech_block(target: i32, lines: Seq<GameLine>, bs: Seq<LineBase>) -> bool {
    &&& bs.len() > 0
    &&& forall|t: int| 0 <= t < bs.len() ==> own_speech_line(target, lines, #[trigger] bs[t])
}

/// Line `i` is an `Assistant` line taken in as a tool-call line.
pub open spec fn tool_call_line_at(lines: Seq<GameLine>, calls: Seq<Option<Seq<ToolCallView>>>, i: int) -> bool {
    &&& 0 <= i < lines.len()
    &&& lines[i].base.attribute.0 == LineAttribute::Assistant
    &&& announced_tool_calls(lines[i].base) is Some
    &&& calls[i] is Some
}

/// A text the character may say in an `assistant` message: the text spoken
/// with one of its tool-call lines, or its own speech lines, each formatted
/// by `extras_text`, one after the other.
pub open spec fn own_speech_text(
    target: i32,
    lines: Seq<GameLine>,
    calls: Seq<Option<Seq<ToolCallView>>>,
    c: Seq<char>,
) -> bool {
    ||| exists|i: int| #[trigger] tool_call_line_at(lines, calls, i) && c == tool_call_text(lines[i].base)
    ||| exists|bs: Seq<LineBase>|
        #[trigger] own_speech_block(target, lines, bs) && c == concat(bs.map_values(|b: LineBase| extras_text(b)))
}

/// Every `assistant` message so far says the character's own speech, and a
/// buffer not of others' lines holds only the character's own speech lines.
pub open spec fn speech_ok(
    target: i32,
    lines: Seq<GameLine>,
    calls: Seq<Option<Seq<ToolCallView>>>,
    st: BuildState,
) -> bool {
    &&& forall|j: int|
        0 <= j < st.memory.len() && (#[trigger] st.memory[j]).role == role_assistant() ==> own_speech_text(
            target,
            lines,
            calls,
            st.memory[j].content,
        )
    &&& st.kind != Some(BufferKind::OtherBlock) ==> forall|t: int|
        0 <= t < st.buffer.len() ==> own_speech_line(target, lines, #[trigger] st.buffer[t])
}

proof fn lemma_speech_push(
    target: i32,
    lines: Seq<GameLine>,
    calls: Seq<Option<Seq<ToolCallView>>>,
    mem: Seq<MessageView>,
    m: MessageView,
)
    requires
        forall|j: int|
            0 <= j < mem.len() && (#[trigger] mem[j]).role == role_assistant() ==> own_speech_text(
                target,
                lines,
                calls,
                mem[j].content,
            ),
        m.role == role_assistant() ==> own_speech_text(target, lines, calls, m.content),
    ensures
        forall|j: int|
            0 <= j < mem.push(m).len() && (#[trigger] mem.push(m)[j]).role == role_assistant() ==> own_speech_text(
                target,
                lines,
                calls,
                mem.push(m)[j].content,
            ),
{
    assert forall|j: int|
        0 <= j < mem.push(m).len() && (#[trigger] mem.push(m)[j]).role == role_assistant() implies own_speech_text(
            target,
            lines,
            calls,
            mem.push(m)[j].content,
        ) by {
        if j < mem.len() {
            assert(mem.push(m)[j] == mem[j]);
        }
    }
}

proof fn lemma_speech_flush(
    target: i32,
    lines: Seq<GameLine>,
    calls: Seq<Option<Seq<ToolCallView>>>,
    st: BuildState,
)
    requires
        speech_ok(target, lines, calls, st),
    ensures
        speech_ok(target, lines, calls, flushed(st)),
{
    lemma_roles_distinct();
    let f = flushed(st).memory;
    if st.buffer.len() > 0 && st.kind == Some(BufferKind::TargetAssistant) {
        let full = concat(st.buffer.map_values(|b: LineBase| extras_text(b)));
        assert(own_speech_block(target, lines, st.buffer));
        if !blank(full) {
            lemma_speech_push(target, lines, calls, st.memory, plain_message(role_assistant(), full));
        }
    } else if st.buffer.len() > 0 && st.kind == Some(BufferKind::OtherBlock) {
        let m = f.last();
        lemma_speech_push(target, lines, calls, st.memory, m);
        assert(f =~= st.memory.push(m));
    }
}

proof fn lemma_speech_step(
    target: i32,
    lines: Seq<GameLine>,
    calls: Seq<Option<Seq<ToolCallView>>>,
    results: Seq<Option<(Option<Seq<char>>, Seq<char>)>>,
    st: BuildState,
    k: int,
)
    requires
        0 <= k < lines.len(),
        speech_ok(target, lines, calls, st),
    ensures
        speech_ok(target, lines, calls, step(target, st, lines[k], calls[k], results[k])),
{
    lemma_roles_distinct();
    lemma_speech_flush(target, lines, calls, st);
    let line = lines[k];
    let b = line.base;
    let attr = b.attribute.0;
    let cleared = flushed(st);
    let s2 = step(target, st, line, calls[k], results[k]);
    if attr == LineAttribute::System {
        if b.sender_role_id == Some(target) && !st.has_system {
            lemma_speech_push(target, lines, calls, cleared.memory, plain_message(role_system(), b.content@));
        }
    } else if announced_tool_calls(b) is Some && calls[k] is Some {
        let m = tool_call_message(b, calls[k]->0);
        assert(tool_call_line_at(lines, calls, k));
        lemma_speech_push(target, lines, calls, cleared.memory, m);
    } else if attr == LineAttribute::Tool {
        let fields = result_fields(results[k], b.content@);
        if fields.0 is Some && st.open.contains(fields.0->0) {
            lemma_speech_push(target, lines, calls, cleared.memory, tool_message(fields.0->0, fields.1));
        }
    } else if !concerns(target, line) {
    } else if b.sender_role_id == Some(target) && attr == LineAttribute::Assistant {
        assert(lines[k].base == b);
        assert(own_speech_line(target, lines, b));
        assert forall|t: int| 0 <= t < s2.buffer.len() implies own_speech_line(target, lines, #[trigger] s2.buffer[t]) by {
            if st.kind != Some(BufferKind::OtherBlock) && t < st.buffer.len() {
                assert(s2.buffer[t] == st.buffer[t]);
            }
        }
    }
}

proof fn lemma_speech_run(
    target: i32,
    lines: Seq<GameLine>,
    calls: Seq<Option<Seq<ToolCallView>>>,
    results: Seq<Option<(Option<Seq<char>>, Seq<char>)>>,
    n: nat,
)
    requires
        n <= lines.len(),
    ensures
        speech_ok(target, lines, calls, run(target, lines, calls, results, n)),
    decreases n,
{
    if n > 0 {
        let k = (n - 1) as nat;
        lemma_speech_run(target, lines, calls, results, k);
        lemma_speech_step(target, lines, calls, results, run(target, lines, calls, results, k), k as int);
    }
}

/// Only the character's own speech goes into its mouth: every `assistant`
/// message of the list sent to the LLM is either the text spoken with one of
/// its tool-call lines, or a run of `Assistant` lines the character itself
/// sent, each formatted by `extras_text`. A `User` line, even one the
/// character sent (the player speaking as it) or perceived, never makes an
/// `assistant` message.
pub proof fn law_assistant_messages_are_own_speech(
    target: i32,
    lines: Seq<GameLine>,
    calls: Seq<Option<Seq<ToolCallView>>>,
    results: Seq<Option<(Option<Seq<char>>, Seq<char>)>>,
    k: int,
)
    requires
        0 <= k < built_messages(target, lines, calls, results).len(),
        built_messages(target, lines, calls, results)[k].role == role_assistant(),
    ensures
        (exists|i: int|
            #[trigger] tool_call_line_at(lines, calls, i) && built_messages(target, lines, calls, results)[k].content
                == tool_call_text(lines[i].base)) || (exists|bs: Seq<LineBase>|
            #[trigger] own_speech_block(target, lines, bs) && built_messages(target, lines, calls, results)[k].content
                == concat(bs.map_values(|b: LineBase| extras_text(b)))),
{
    let st = run(target, lines, calls, results, lines.len());
    lemma_speech_run(target, lines, calls, results, lines.len());
    lemma_speech_flush(target, lines, calls, st);
    let i = lemma_built_source(target, lines, calls, results, k);
    let pre = collected_messages(target, lines, calls, results);
    assert(pre == flushed(st).memory);
    assert(own_speech_text(target, lines, calls, pre[i].content));
}


/// `needle` occurs in `hay` as a run of consecutive characters.
pub open spec fn has_infix(hay: Seq<char>, needle: Seq<char>) -> bool {
    exists|a: int| 0 <= a && a + needle.len() <= hay.len() && #[trigger] hay.subrange(a, a + needle.len()) == needle
}

proof fn lemma_infix_at(hay: Seq<char>, needle: Seq<char>, a: int)
    requires
        0 <= a,
        a + needle.len() <= hay.len(),
        hay.subrange(a, a + needle.len()) =~= needle,
    ensures
        has_infix(hay, needle),
{
}

proof fn lemma_infix_self(s: Seq<char>)
    ensures
        has_infix(s, s),
{
    lemma_infix_at(s, s, 0);
}

proof fn lemma_infix_extend(hay: Seq<char>, needle: Seq<char>, pre: Seq<char>, post: Seq<char>)
    requires
        has_infix(hay, needle),
    ensures
        has_infix(pre + hay + post, needle),
{
    let a = choose|a: int| 0 <= a && a + needle.len() <= hay.len() && #[trigger] hay.subrange(a, a + needle.len()) == needle;
    let big = pre + hay + post;
    let b = a + pre.len();
    assert(big.subrange(b, b + needle.len()) =~= hay.subrange(a, a + needle.len()));
    lemma_infix_at(big, needle, b);
}

proof fn lemma_infix_trans(hay: Seq<char>, mid: Seq<char>, needle: Seq<char>)
    requires
        has_infix(hay, mid),
        has_infix(mid, needle),
    ensures
        has_infix(hay, needle),
{
    let a = choose|a: int| 0 <= a && a + mid.len() <= hay.len() && #[trigger] hay.subrange(a, a + mid.len()) == mid;
    let c = choose|c: int| 0 <= c && c + needle.len() <= mid.len() && #[trigger] mid.subrange(c, c + needle.len()) == needle;
    assert(hay.subrange(a + c, a + c + needle.len()) =~= mid.subrange(c, c + needle.len()));
    lemma_infix_at(hay, needle, a + c);
}

proof fn lemma_join_infix(parts: Seq<Seq<char>>, sep: Seq<char>, t: int)
    requires
        0 <= t < parts.len(),
    ensures
        has_infix(join(parts, sep), parts[t]),
    decreases parts.len(),
{
    lemma_infix_self(parts[t]);
    if parts.len() == 1 {
    } else if t == parts.len() - 1 {
        lemma_infix_extend(parts[t], parts[t], join(parts.drop_last(), sep) + sep, Seq::<char>::empty());
        assert(join(parts.drop_last(), sep) + sep + parts[t] + Seq::<char>::empty() =~= join(parts, sep));
    } else {
        lemma_join_infix(parts.drop_last(), sep, t);
        assert(parts.drop_last()[t] == parts[t]);
        lemma_infix_extend(join(parts.drop_last(), sep), parts[t], Seq::<char>::empty(), sep + parts.last());
        assert(Seq::<char>::empty() + join(parts.drop_last(), sep) + (sep + parts.last()) =~= join(parts, sep));
    }
}

proof fn lemma_user_tail_le(buf: Seq<LineBase>)
    ensures
        user_tail_len(buf) <= buf.len(),
    decreases buf.len(),
{
    if buf.len() > 0 {
        lemma_user_tail_le(buf.drop_last());
    }
}

/// Every line of a block of perceived lines is quoted, under its speaker's
/// name, in the block's `user` message.
proof fn lemma_block_quotes_line(buf: Seq<LineBase>, t: int)
    requires
        0 <= t < buf.len(),
    ensures
        has_infix(other_block_text(buf), spoken_text(buf[t])),
{
    lemma_user_tail_le(buf);
    let k = buf.len() - user_tail_len(buf);
    let context = buf.take(k);
    let active = buf.skip(k);
    let cparts = context.map_values(|b: LineBase| context_text(b));
    let aparts = active.map_values(|b: LineBase| spoken_text(b));
    let ctx_part = if context.len() > 0 {
        seq!['{'] + join(cparts, seq!['\n']) + seq!['}']
    } else {
        Seq::<char>::empty()
    };
    let act_part = join(aparts, seq!['\n']);
    let mid = if context.len() > 0 && active.len() > 0 { seq!['\n'] } else { Seq::<char>::empty() };
    assert(other_block_text(buf) =~= ctx_part + mid + act_part);
    if t < k {
        assert(cparts[t] == context_text(buf[t]));
        lemma_join_infix(cparts, seq!['\n'], t);
        let c = context_text(buf[t]);
        lemma_infix_at(c, spoken_text(buf[t]), 0);
        lemma_infix_trans(join(cparts, seq!['\n']), c, spoken_text(buf[t]));
        lemma_infix_extend(join(cparts, seq!['\n']), spoken_text(buf[t]), seq!['{'], seq!['}'] + mid + act_part);
        assert(seq!['{'] + join(cparts, seq!['\n']) + (seq!['}'] + mid + act_part) =~= other_block_text(buf));
    } else {
        assert(aparts[t - k] == spoken_text(buf[t]));
        lemma_join_infix(aparts, seq!['\n'], t - k);
        lemma_infix_extend(act_part, spoken_text(buf[t]), ctx_part + mid, Seq::<char>::empty());
        assert(ctx_part + mid + act_part + Seq::<char>::empty() =~= other_block_text(buf));
    }
}

/// A line the character hears rather than says: one it sent or perceived
/// that is no persona line, no tool line, no tool-call line, and not an
/// `Assistant` line of its own. Every `User` line it sent (the player
/// speaking as it) or perceived is one.
pub open spec fn heard_line(target: i32, lines: Seq<GameLine>, calls: Seq<Option<Seq<ToolCallView>>>, i: int) -> bool {
    &&& 0 <= i < lines.len()
    &&& lines[i].base.attribute.0 != LineAttribute::System
    &&& lines[i].base.attribute.0 != LineAttribute::Tool
    &&& !tool_call_line_at(lines, calls, i)
    &&& !(lines[i].base.sender_role_id == Some(target) && lines[i].base.attribute.0 == LineAttribute::Assistant)
    &&& (lines[i].base.sender_role_id == Some(target) || lines[i].perceived_role_ids@.contains(target))
}

/// Some `user` message of `mem` quotes line `b`.
pub open spec fn quoted_in_user_message(mem: Seq<MessageView>, b: LineBase) -> bool {
    exists|j: int| 0 <= j < mem.len() && (#[trigger] mem[j]).role == role_user() && has_infix(mem[j].content, spoken_text(b))
}

/// Each of the first `n` heard `User` lines is quoted in a `user` message, or
/// waits in a buffer of perceived lines.
spec fn heard_ok(target: i32, lines: Seq<GameLine>, calls: Seq<Option<Seq<ToolCallView>>>, st: BuildState, n: int) -> bool {
    forall|i: int|
        0 <= i < n && #[trigger] heard_line(target, lines, calls, i) ==> quoted_in_user_message(st.memory, lines[i].base) || (
        st.kind == Some(BufferKind::OtherBlock) && exists|t: int| 0 <= t < st.buffer.len() && #[trigger] st.buffer[t] == lines[i].base)
}

proof fn lemma_quoted_kept(mem: Seq<MessageView>, mem2: Seq<MessageView>, b: LineBase)
    requires
        quoted_in_user_message(mem, b),
        mem.len() <= mem2.len(),
        forall|j: int| 0 <= j < mem.len() ==> mem2[j] == mem[j],
    ensures
        quoted_in_user_message(mem2, b),
{
    let j = choose|j: int| 0 <= j < mem.len() && (#[trigger] mem[j]).role == role_user() && has_infix(mem[j].content, spoken_text(b));
    assert(mem2[j] == mem[j]);
}

proof fn lemma_heard_flush(target: i32, lines: Seq<GameLine>, calls: Seq<Option<Seq<ToolCallView>>>, st: BuildState, n: int)
    requires
        heard_ok(target, lines, calls, st, n),
    ensures
        forall|i: int| 0 <= i < n && #[trigger] heard_line(target, lines, calls, i) ==> quoted_in_user_message(flushed(st).memory, lines[i].base),
{
    lemma_flush_extends(st.memory, st.buffer, st.kind);
    let f = flushed(st).memory;
    assert forall|i: int| 0 <= i < n && #[trigger] heard_line(target, lines, calls, i) implies quoted_in_user_message(f, lines[i].base) by {
        if quoted_in_user_message(st.memory, lines[i].base) {
            lemma_quoted_kept(st.memory, f, lines[i].base);
        } else {
            let t = choose|t: int| 0 <= t < st.buffer.len() && #[trigger] st.buffer[t] == lines[i].base;
            lemma_block_quotes_line(st.buffer, t);
            let j = st.memory.len() as int;
            assert(f[j].role == role_user());
        }
    }
}

proof fn lemma_heard_step(
    target: i32,
    lines: Seq<GameLine>,
    calls: Seq<Option<Seq<ToolCallView>>>,
    results: Seq<Option<(Option<Seq<char>>, Seq<char>)>>,
    st: BuildState,
    k: int,
)
    requires
        0 <= k < lines.len(),
        heard_ok(target, lines, calls, st, k),
    ensures
        heard_ok(target, lines, calls, step(target, st, lines[k], calls[k], results[k]), k + 1),
{
    lemma_heard_flush(target, lines, calls, st, k);
    lemma_step_extends(target, st, lines[k], calls[k], results[k]);
    lemma_flush_extends(st.memory, st.buffer, st.kind);
    let line = lines[k];
    let b = line.base;
    let attr = b.attribute.0;
    let cleared = flushed(st);
    let s2 = step(target, st, line, calls[k], results[k]);
    assert forall|i: int| 0 <= i < k + 1 && #[trigger] heard_line(target, lines, calls, i) implies quoted_in_user_message(s2.memory, lines[i].base) || (
        s2.kind == Some(BufferKind::OtherBlock) && exists|t: int| 0 <= t < s2.buffer.len() && #[trigger] s2.buffer[t] == lines[i].base) by {
        if i == k {
            assert(concerns(target, line));
            assert(!(announced_tool_calls(b) is Some && calls[k] is Some));
            let t = s2.buffer.len() - 1;
            assert(s2.buffer[t] == b);
        } else if attr == LineAttribute::System && b.sender_role_id != Some(target) {
        } else if attr != LineAttribute::System && !(announced_tool_calls(b) is Some && calls[k] is Some)
            && attr != LineAttribute::Tool && !concerns(target, line) {
        } else if attr != LineAttribute::System && !(announced_tool_calls(b) is Some && calls[k] is Some)
            && attr != LineAttribute::Tool && !(b.sender_role_id == Some(target) && attr == LineAttribute::Assistant)
            && st.kind != Some(BufferKind::TargetAssistant) {
            if !quoted_in_user_message(st.memory, lines[i].base) {
                let t = choose|t: int| 0 <= t < st.buffer.len() && #[trigger] st.buffer[t] == lines[i].base;
                assert(s2.buffer[t] == st.buffer[t]);
            } else {
                lemma_quoted_kept(st.memory, s2.memory, lines[i].base);
            }
        } else if quoted_in_user_message(st.memory, lines[i].base) {
            lemma_quoted_kept(st.memory, s2.memory, lines[i].base);
        } else {
            assert(st.kind == Some(BufferKind::OtherBlock));
            assert(s2.memory == cleared.memory || s2.memory == cleared.memory.push(s2.memory.last()));
            assert(forall|j: int| 0 <= j < cleared.memory.len() ==> s2.memory[j] == cleared.memory[j]);
            lemma_quoted_kept(cleared.memory, s2.memory, lines[i].base);
        }
    }
}

proof fn lemma_heard_run(
    target: i32,
    lines: Seq<GameLine>,
    calls: Seq<Option<Seq<ToolCallView>>>,
    results: Seq<Option<(Option<Seq<char>>, Seq<char>)>>,
    n: nat,
)
    requires
        n <= lines.len(),
    ensures
        heard_ok(target, lines, calls, run(target, lines, calls, results, n), n as int),
    decreases n,
{
    if n > 0 {
        let k = (n - 1) as nat;
        lemma_heard_run(target, lines, calls, results, k);
        lemma_heard_step(target, lines, calls, results, run(target, lines, calls, results, k), k as int);
    }
}

/// What the character hears stays what others say to it: every line it
/// hears (`heard_line`), in particular every `User` line it sent (the player
/// speaking as it) or perceived, is quoted, under its speaker's name, in a
/// `user` message of the list sent to the LLM.
pub proof fn law_heard_lines_reach_user_messages(
    target: i32,
    lines: Seq<GameLine>,
    calls: Seq<Option<Seq<ToolCallView>>>,
    results: Seq<Option<(Option<Seq<char>>, Seq<char>)>>,
    i: int,
)
    requires
        heard_line(target, lines, calls, i),
    ensures
        exists|j: int|
            0 <= j < built_messages(target, lines, calls, results).len() && (#[trigger] built_messages(
                target,
                lines,
                calls,
                results,
            )[j]).role == role_user() && has_infix(
                built_messages(target, lines, calls, results)[j].content,
                spoken_text(lines[i].base),
            ),
{
    let st = run(target, lines, calls, results, lines.len());
    lemma_heard_run(target, lines, calls, results, lines.len());
    lemma_heard_flush(target, lines, calls, st, lines.len() as int);
    let pre = collected_messages(target, lines, calls, results);
    assert(pre == flushed(st).memory);
    assert(quoted_in_user_message(pre, lines[i].base));
    let p = choose|j: int| 0 <= j < pre.len() && (#[trigger] pre[j]).role == role_user() && has_infix(pre[j].content, spoken_text(lines[i].base));
    let ms = stripped_messages(target, lines, calls, results);
    let open = unanswered_ids(target, lines, calls, results);
    lemma_roles_distinct();
    assert(ms[p] == strip_one(pre[p], open));
    assert(paired_at(ms, p));
    lemma_built_target(target, lines, calls, results, p);
    let out = built_messages(target, lines, calls, results);
    let j = kept_before(ms, p) as int;
    assert(out[j] == ms[p]);
}


proof fn lemma_concat_infix(parts: Seq<Seq<char>>, t: int)
    requires
        0 <= t < parts.len(),
    ensures
        has_infix(concat(parts), parts[t]),
    decreases parts.len(),
{
    lemma_infix_self(parts[t]);
    if t == parts.len() - 1 {
        lemma_infix_extend(parts[t], parts[t], concat(parts.drop_last()), Seq::<char>::empty());
        assert(concat(parts.drop_last()) + parts[t] + Seq::<char>::empty() =~= concat(parts));
    } else {
        lemma_concat_infix(parts.drop_last(), t);
        assert(parts.drop_last()[t] == parts[t]);
        lemma_infix_extend(concat(parts.drop_last()), parts[t], Seq::<char>::empty(), parts.last());
        assert(Seq::<char>::empty() + concat(parts.drop_last()) + parts.last() =~= concat(parts));
    }
}

/// A text holding a non-blank run of characters is not blank.
proof fn lemma_infix_not_blank(hay: Seq<char>, needle: Seq<char>)
    requires
        has_infix(hay, needle),
        !blank(needle),
    ensures
        !blank(hay),
{
    let a = choose|a: int| 0 <= a && a + needle.len() <= hay.len() && #[trigger] hay.subrange(a, a + needle.len()) == needle;
    let c = choose|c: int| 0 <= c < needle.len() && !crate::text::white_space(#[trigger] needle[c]);
    assert(hay[a + c] == needle[c]);
}

/// Line `i` is one of the character's own speech lines that is no tool-call
/// line, and says something: its formatted text is not blank.
pub open spec fn own_plain_line(target: i32, lines: Seq<GameLine>, calls: Seq<Option<Seq<ToolCallView>>>, i: int) -> bool {
    &&& 0 <= i < lines.len()
    &&& lines[i].base.attribute.0 == LineAttribute::Assistant
    &&& lines[i].base.sender_role_id == Some(target)
    &&& !tool_call_line_at(lines, calls, i)
    &&& !blank(extras_text(lines[i].base))
}

/// Some `assistant` message of `mem` holds the formatted line `b`.
pub open spec fn said_in_assistant_message(mem: Seq<MessageView>, b: LineBase) -> bool {
    exists|j: int| 0 <= j < mem.len() && (#[trigger] mem[j]).role == role_assistant() && has_infix(mem[j].content, extras_text(b))
}

/// Each of the first `n` own plain lines is said in an `assistant` message,
/// or waits in a buffer of the character's own lines.
spec fn said_ok(target: i32, lines: Seq<GameLine>, calls: Seq<Option<Seq<ToolCallView>>>, st: BuildState, n: int) -> bool {
    forall|i: int|
        0 <= i < n && #[trigger] own_plain_line(target, lines, calls, i) ==> said_in_assistant_message(st.memory, lines[i].base) || (
        st.kind == Some(BufferKind::TargetAssistant) && exists|t: int| 0 <= t < st.buffer.len() && #[trigger] st.buffer[t] == lines[i].base)
}

proof fn lemma_said_kept(mem: Seq<MessageView>, mem2: Seq<MessageView>, b: LineBase)
    requires
        said_in_assistant_message(mem, b),
        mem.len() <= mem2.len(),
        forall|j: int| 0 <= j < mem.len() ==> mem2[j] == mem[j],
    ensures
        said_in_assistant_message(mem2, b),
{
    let j = choose|j: int| 0 <= j < mem.len() && (#[trigger] mem[j]).role == role_assistant() && has_infix(mem[j].content, extras_text(b));
    assert(mem2[j] == mem[j]);
}

proof fn lemma_said_flush(target: i32, lines: Seq<GameLine>, calls: Seq<Option<Seq<ToolCallView>>>, st: BuildState, n: int)
    requires
        said_ok(target, lines, calls, st, n),
    ensures
        forall|i: int| 0 <= i < n && #[trigger] own_plain_line(target, lines, calls, i) ==> said_in_assistant_message(flushed(st).memory, lines[i].base),
{
    lemma_flush_extends(st.memory, st.buffer, st.kind);
    let f = flushed(st).memory;
    assert forall|i: int| 0 <= i < n && #[trigger] own_plain_line(target, lines, calls, i) implies said_in_assistant_message(f, lines[i].base) by {
        if said_in_assistant_message(st.memory, lines[i].base) {
            lemma_said_kept(st.memory, f, lines[i].base);
        } else {
            let t = choose|t: int| 0 <= t < st.buffer.len() && #[trigger] st.buffer[t] == lines[i].base;
            let parts = st.buffer.map_values(|b: LineBase| extras_text(b));
            assert(parts[t] == extras_text(lines[i].base));
            lemma_concat_infix(parts, t);
            lemma_infix_not_blank(concat(parts), parts[t]);
            let j = st.memory.len() as int;
            assert(f[j].role == role_assistant());
        }
    }
}

proof fn lemma_said_step(
    target: i32,
    lines: Seq<GameLine>,
    calls: Seq<Option<Seq<ToolCallView>>>,
    results: Seq<Option<(Option<Seq<char>>, Seq<char>)>>,
    st: BuildState,
    k: int,
)
    requires
        0 <= k < lines.len(),
        said_ok(target, lines, calls, st, k),
    ensures
        said_ok(target, lines, calls, step(target, st, lines[k], calls[k], results[k]), k + 1),
{
    lemma_said_flush(target, lines, calls, st, k);
    lemma_step_extends(target, st, lines[k], calls[k], results[k]);
    lemma_flush_extends(st.memory, st.buffer, st.kind);
    let line = lines[k];
    let b = line.base;
    let attr = b.attribute.0;
    let cleared = flushed(st);
    let s2 = step(target, st, line, calls[k], results[k]);
    assert forall|i: int| 0 <= i < k + 1 && #[trigger] own_plain_line(target, lines, calls, i) implies said_in_assistant_message(s2.memory, lines[i].base) || (
        s2.kind == Some(BufferKind::TargetAssistant) && exists|t: int| 0 <= t < s2.buffer.len() && #[trigger] s2.buffer[t] == lines[i].base) by {
        if i == k {
            assert(!(announced_tool_calls(b) is Some && calls[k] is Some));
            assert(concerns(target, line));
            let t = s2.buffer.len() - 1;
            assert(s2.buffer[t] == b);
        } else if attr == LineAttribute::System && b.sender_role_id != Some(target) {
        } else if attr != LineAttribute::System && !(announced_tool_calls(b) is Some && calls[k] is Some)
            && attr != LineAttribute::Tool && !concerns(target, line) {
        } else if said_in_assistant_message(st.memory, lines[i].base) {
            lemma_said_kept(st.memory, s2.memory, lines[i].base);
        } else if attr != LineAttribute::System && !(announced_tool_calls(b) is Some && calls[k] is Some)
            && attr != LineAttribute::Tool && b.sender_role_id == Some(target) && attr == LineAttribute::Assistant {
            let t = choose|t: int| 0 <= t < st.buffer.len() && #[trigger] st.buffer[t] == lines[i].base;
            assert(s2.buffer[t] == st.buffer[t]);
        } else {
            assert(st.kind == Some(BufferKind::TargetAssistant));
            assert(s2.memory == cleared.memory || s2.memory == cleared.memory.push(s2.memory.last()));
            assert(forall|j: int| 0 <= j < cleared.memory.len() ==> s2.memory[j] == cleared.memory[j]);
            lemma_said_kept(cleared.memory, s2.memory, lines[i].base);
        }
    }
}

proof fn lemma_said_run(
    target: i32,
    lines: Seq<GameLine>,
    calls: Seq<Option<Seq<ToolCallView>>>,
    results: Seq<Option<(Option<Seq<char>>, Seq<char>)>>,
    n: nat,
)
    requires
        n <= lines.len(),
    ensures
        said_ok(target, lines, calls, run(target, lines, calls, results, n), n as int),
    decreases n,
{
    if n > 0 {
        let k = (n - 1) as nat;
        lemma_said_run(target, lines, calls, results, k);
        lemma_said_step(target, lines, calls, results, run(target, lines, calls, results, k), k as int);
    }
}

/// The character's own speech stays its own: every `Assistant` line the
/// character sent that is no tool-call line and says something is held,
/// formatted by `extras_text`, in an `assistant` message of the list sent to
/// the LLM.
pub proof fn law_own_lines_reach_assistant_messages(
    target: i32,
    lines: Seq<GameLine>,
    calls: Seq<Option<Seq<ToolCallView>>>,
    results: Seq<Option<(Option<Seq<char>>, Seq<char>)>>,
    i: int,
)
    requires
        own_plain_line(target, lines, calls, i),
    ensures
        exists|j: int|
            0 <= j < built_messages(target, lines, calls, results).len() && (#[trigger] built_messages(
                target,
                lines,
                calls,
                results,
            )[j]).role == role_assistant() && has_infix(
                built_messages(target, lines, calls, results)[j].content,
                extras_text(lines[i].base),
            ),
{
    let st = run(target, lines, calls, results, lines.len());
    lemma_said_run(target, lines, calls, results, lines.len());
    lemma_said_flush(target, lines, calls, st, lines.len() as int);
    let pre = collected_messages(target, lines, calls, results);
    assert(pre == flushed(st).memory);
    assert(said_in_assistant_message(pre, lines[i].base));
    let p = choose|j: int| 0 <= j < pre.len() && (#[trigger] pre[j]).role == role_assistant() && has_infix(pre[j].content, extras_text(lines[i].base));
    let ms = stripped_messages(target, lines, calls, results);
    let open = unanswered_ids(target, lines, calls, results);
    lemma_roles_distinct();
    assert(ms[p] == strip_one(pre[p], open));
    assert(paired_at(ms, p));
    lemma_built_target(target, lines, calls, results, p);
    let out = built_messages(target, lines, calls, results);
    let j = kept_before(ms, p) as int;
    assert(out[j] == ms[p]);
}

} // verus!
