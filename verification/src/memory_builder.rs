//! Builds, from the dialogue lines of a game, the message list that one
//! character's LLM receives: its own lines become `assistant` messages, what
//! it perceived from others becomes `user` messages, its persona line the one
//! `system` message, and tool calls keep their results paired.

use vstd::prelude::*;
use crate::text::{blank, chars_of, is_blank, str_eq};
use crate::tool_result::{decode_tool_result, tool_result_payload, ToolResult};
use crate::types::{
    calls_view, duplicate_calls, messages_view, opt_view, plain_message, role_assistant, role_system,
    role_tool, role_user, GameLine, LineAttribute, LineBase, LlmMessage, MessageView, ToolCall,
    ToolCallView,
};

verus! {

/// Builds the LLM message list of one target character.
pub struct MemoryBuilder {
    pub target_role_id: i32,
}

/// An optional text, kept only when it is not empty (`filter(|v| !v.is_empty())`).
pub open spec fn nonempty(o: Option<String>) -> Option<Seq<char>> {
    match o {
        Some(s) => if s@.len() > 0 { Some(s@) } else { None },
        None => None,
    }
}

/// `open + part + close` when the part is present, nothing otherwise.
pub open spec fn wrap(open: Seq<char>, part: Option<Seq<char>>, close: Seq<char>) -> Seq<char> {
    match part {
        Some(p) => open + p + close,
        None => Seq::<char>::empty(),
    }
}

/// The text of one of the target's own lines: `【emotion】content\n(action)\n<tts>\n\n`,
/// each decoration present only when its field is a non-empty text.
pub open spec fn extras_text(b: LineBase) -> Seq<char> {
    wrap(seq!['【'], nonempty(b.original_emotion), seq!['】'])
        + b.content@
        + seq!['\n']
        + wrap(seq!['('], nonempty(b.action_content), seq![')', '\n'])
        + wrap(seq!['<'], nonempty(b.tts_content), seq!['>', '\n'])
        + seq!['\n']
}

pub open spec fn name_unknown() -> Seq<char> {
    seq!['未', '知']
}

pub open spec fn name_narrator() -> Seq<char> {
    seq!['旁', '白']
}

pub open spec fn name_system() -> Seq<char> {
    seq!['系', '统']
}

/// The name a line is spoken under: its display name, or `未知` without one.
pub open spec fn speaker_name(b: LineBase) -> Seq<char> {
    match b.display_name {
        Some(n) => n@,
        None => name_unknown(),
    }
}

/// A line as it is quoted to the target: the bare content for the narrator
/// (`旁白`) and the system (`系统`), `name: content` for anyone else.
pub open spec fn spoken_text(b: LineBase) -> Seq<char> {
    let name = speaker_name(b);
    if name == name_narrator() || name == name_system() {
        b.content@
    } else {
        name + seq![':', ' '] + b.content@
    }
}

/// A context line: the spoken text followed by `(action)` when there is one.
/// Emotion and speech-synthesis text are left out.
pub open spec fn context_text(b: LineBase) -> Seq<char> {
    spoken_text(b) + wrap(seq!['('], nonempty(b.action_content), seq![')'])
}

/// Whether the target sent or perceived the line.
pub open spec fn concerns(target: i32, line: GameLine) -> bool {
    line.base.sender_role_id == Some(target) || line.perceived_role_ids@.contains(target)
}

/// The non-empty text of an optional string, borrowed.
fn non_empty(o: &Option<String>) -> (r: Option<&str>)
    ensures
        match r {
            Some(x) => nonempty(*o) == Some(x@),
            None => nonempty(*o) is None,
        },
{
    match o {
        Some(s) => {
            if s.as_str().is_empty() {
                None
            } else {
                Some(s.as_str())
            }
        },
        None => None,
    }
}

impl MemoryBuilder {
    pub fn new(target_role_id: i32) -> (r: Self)
        ensures
            r.target_role_id == target_role_id,
    {
        Self { target_role_id }
    }

    /// Whether the line was sent by the target or perceived by it.
    pub fn is_target(&self, line: &GameLine) -> (r: bool)
        ensures
            r == concerns(self.target_role_id, *line),
    {
        if line.sender_role_id() == Some(self.target_role_id) {
            return true;
        }
        let mut i: usize = 0;
        while i < line.perceived_role_ids.len()
            invariant
                i <= line.perceived_role_ids@.len(),
                forall|j: int| 0 <= j < i ==> line.perceived_role_ids@[j] != self.target_role_id,
            decreases line.perceived_role_ids.len() - i,
        {
            if line.perceived_role_ids[i] == self.target_role_id {
                assert(line.perceived_role_ids@[i as int] == self.target_role_id);
                assert(line.perceived_role_ids@.contains(self.target_role_id));
                return true;
            }
            i = i + 1;
        }
        false
    }

    /// Formats one of the target's own lines: `【emotion】content\n(action)\n<tts>\n\n`.
    pub fn format_content_with_extras(&self, line: &LineBase) -> (r: String)
        ensures
            r@ == extras_text(*line),
    {
        proof {
            reveal_strlit("【");
            reveal_strlit("】");
            reveal_strlit("\n");
            reveal_strlit("(");
            reveal_strlit(")");
            reveal_strlit("<");
            reveal_strlit(">");
        }
        let mut s = String::new();
        let ghost p1 = wrap(seq!['【'], nonempty(line.original_emotion), seq!['】']);
        if let Some(emo) = non_empty(&line.original_emotion) {
            s.append("【");
            s.append(emo);
            s.append("】");
        }
        assert(s@ =~= p1);
        s.append(line.content.as_str());
        s.append("\n");
        let ghost p2 = p1 + line.content@ + seq!['\n'];
        assert(s@ =~= p2);
        let ghost p3 = p2 + wrap(seq!['('], nonempty(line.action_content), seq![')', '\n']);
        if let Some(act) = non_empty(&line.action_content) {
            s.append("(");
            s.append(act);
            s.append(")");
            s.append("\n");
        }
        assert(s@ =~= p3);
        let ghost p4 = p3 + wrap(seq!['<'], nonempty(line.tts_content), seq!['>', '\n']);
        if let Some(tts) = non_empty(&line.tts_content) {
            s.append("<");
            s.append(tts);
            s.append(">");
            s.append("\n");
        }
        assert(s@ =~= p4);
        s.append("\n");
        assert(s@ =~= extras_text(*line));
        s
    }

    /// A line quoted under its speaker's name (see `spoken_text`).
    pub fn format_spoken_line(&self, line: &LineBase) -> (r: String)
        ensures
            r@ == spoken_text(*line),
    {
        proof {
            reveal_strlit("未知");
            reveal_strlit("旁白");
            reveal_strlit("系统");
            reveal_strlit(": ");
        }
        assert("未知"@ =~= name_unknown());
        assert("旁白"@ =~= name_narrator());
        assert("系统"@ =~= name_system());
        assert(": "@ =~= seq![':', ' ']);
        let name: &str = match &line.display_name {
            Some(n) => n.as_str(),
            None => "未知",
        };
        assert(name@ == speaker_name(*line));
        if str_eq(name, "旁白") || str_eq(name, "系统") {
            line.content.clone()
        } else {
            let mut s = name.to_owned();
            s.append(": ");
            s.append(line.content.as_str());
            assert(s@ =~= spoken_text(*line));
            s
        }
    }

    /// Formats a context line: `name: content(action)`, without emotion or
    /// speech-synthesis text.
    pub fn format_context_line(&self, line: &LineBase) -> (r: String)
        ensures
            r@ == context_text(*line),
    {
        proof {
            reveal_strlit("(");
            reveal_strlit(")");
        }
        let mut s = self.format_spoken_line(line);
        if let Some(act) = non_empty(&line.action_content) {
            s.append("(");
            s.append(act);
            s.append(")");
        }
        assert(s@ =~= context_text(*line));
        s
    }
}


/// What the lines waiting in the buffer are.
#[derive(Clone, Copy, Debug, PartialEq, Eq, Structural)]
pub enum BufferKind {
    /// The target's own lines, to become one `assistant` message.
    TargetAssistant,
    /// Lines of others that the target perceived, to become one `user` message.
    OtherBlock,
}

/// The texts joined in order, without separator.
pub open spec fn concat(parts: Seq<Seq<char>>) -> Seq<char>
    decreases parts.len(),
{
    if parts.len() == 0 {
        Seq::<char>::empty()
    } else {
        concat(parts.drop_last()) + parts.last()
    }
}

/// The texts joined in order with `sep` between neighbours.
pub open spec fn join(parts: Seq<Seq<char>>, sep: Seq<char>) -> Seq<char>
    decreases parts.len(),
{
    if parts.len() == 0 {
        Seq::<char>::empty()
    } else if parts.len() == 1 {
        parts[0]
    } else {
        join(parts.drop_last(), sep) + sep + parts.last()
    }
}

/// The strings as characters.
pub open spec fn texts(v: Seq<String>) -> Seq<Seq<char>> {
    v.map_values(|s: String| s@)
}

/// `parts.join(sep)`.
pub fn join_strings(parts: &Vec<String>, sep: &str) -> (r: String)
    ensures
        r@ == join(texts(parts@), sep@),
{
    let mut r = String::new();
    let ghost all = texts(parts@);
    let mut i: usize = 0;
    while i < parts.len()
        invariant
            i <= parts@.len(),
            all == texts(parts@),
            r@ == join(all.take(i as int), sep@),
        decreases parts.len() - i,
    {
        assert(all.take(i + 1).drop_last() =~= all.take(i as int));
        if i != 0 {
            r.append(sep);
        }
        r.append(parts[i].as_str());
        i = i + 1;
    }
    assert(all.take(i as int) =~= all);
    r
}

/// `parts.concat()`.
pub fn concat_strings(parts: &Vec<String>) -> (r: String)
    ensures
        r@ == concat(texts(parts@)),
{
    let mut r = String::new();
    let ghost all = texts(parts@);
    let mut i: usize = 0;
    while i < parts.len()
        invariant
            i <= parts@.len(),
            all == texts(parts@),
            r@ == concat(all.take(i as int)),
        decreases parts.len() - i,
    {
        assert(all.take(i + 1).drop_last() =~= all.take(i as int));
        r.append(parts[i].as_str());
        i = i + 1;
    }
    assert(all.take(i as int) =~= all);
    r
}

/// How many lines at the end of the block are the player's (`User`) lines.
pub open spec fn user_tail_len(buf: Seq<LineBase>) -> nat
    decreases buf.len(),
{
    if buf.len() > 0 && buf.last().attribute.0 == LineAttribute::User {
        1 + user_tail_len(buf.drop_last())
    } else {
        0
    }
}

/// The `user` message text of a block of perceived lines. The block splits
/// before its final run of `User` lines: the lines before it are context,
/// rendered by `context_text`, one per line and wrapped in `{` `}`; the final
/// run is the player's speech, rendered by `spoken_text`, one per line. A
/// newline separates the two parts when both are present.
pub open spec fn other_block_text(buf: Seq<LineBase>) -> Seq<char> {
    let k = buf.len() - user_tail_len(buf);
    let context = buf.take(k);
    let active = buf.skip(k);
    let ctx_part = if context.len() > 0 {
        seq!['{'] + join(context.map_values(|b: LineBase| context_text(b)), seq!['\n']) + seq!['}']
    } else {
        Seq::<char>::empty()
    };
    let act_part = join(active.map_values(|b: LineBase| spoken_text(b)), seq!['\n']);
    if context.len() > 0 && active.len() > 0 {
        ctx_part + seq!['\n'] + act_part
    } else {
        ctx_part + act_part
    }
}

/// The messages after the buffer is written out: a non-blank `assistant`
/// message of the target's own lines, or one `user` message of a block of
/// perceived lines. An empty buffer writes nothing.
pub open spec fn flush_spec(
    mem: Seq<MessageView>,
    buf: Seq<LineBase>,
    kind: Option<BufferKind>,
) -> Seq<MessageView> {
    if buf.len() == 0 {
        mem
    } else {
        match kind {
            Some(BufferKind::TargetAssistant) => {
                let full = concat(buf.map_values(|b: LineBase| extras_text(b)));
                if blank(full) {
                    mem
                } else {
                    mem.push(plain_message(role_assistant(), full))
                }
            },
            Some(BufferKind::OtherBlock) => mem.push(plain_message(role_user(), other_block_text(buf))),
            None => mem,
        }
    }
}

/// The lines that buffered indices point at.
pub open spec fn buffered(lines: Seq<GameLine>, idx: Seq<usize>) -> Seq<LineBase> {
    idx.map_values(|j: usize| lines[j as int].base)
}

impl MemoryBuilder {
    /// The position where the final run of `User` lines of the block starts.
    fn user_tail_start(lines: &[GameLine], buffer: &Vec<usize>) -> (k: usize)
        requires
            forall|j: int| 0 <= j < buffer@.len() ==> buffer@[j] < lines@.len(),
        ensures
            k == buffer@.len() - user_tail_len(buffered(lines@, buffer@)),
    {
        let ghost buf = buffered(lines@, buffer@);
        let n = buffer.len();
        let mut k: usize = n;
        assert(buf.take(n as int) =~= buf);
        while k > 0 && lines[buffer[k - 1]].base.attribute.0 == LineAttribute::User
            invariant
                k <= n,
                n == buffer@.len(),
                buf == buffered(lines@, buffer@),
                forall|j: int| 0 <= j < buffer@.len() ==> buffer@[j] < lines@.len(),
                user_tail_len(buf) == (n - k) + user_tail_len(buf.take(k as int)),
            decreases k,
        {
            assert(buf.take(k as int).drop_last() =~= buf.take(k - 1));
            k = k - 1;
        }
        k
    }
}

impl MemoryBuilder {
    /// The `user` message text of the buffered block (see `other_block_text`).
    fn other_block_message(&self, lines: &[GameLine], buffer: &Vec<usize>) -> (r: String)
        requires
            forall|j: int| 0 <= j < buffer@.len() ==> buffer@[j] < lines@.len(),
        ensures
            r@ == other_block_text(buffered(lines@, buffer@)),
    {
        proof {
            reveal_strlit("{");
            reveal_strlit("}");
            reveal_strlit("\n");
        }
        assert("{"@ =~= seq!['{']);
        assert("}"@ =~= seq!['}']);
        assert("\n"@ =~= seq!['\n']);
        let ghost buf = buffered(lines@, buffer@);
        let n = buffer.len();
        let k = Self::user_tail_start(lines, buffer);
        let mut ctx: Vec<String> = Vec::new();
        let mut j: usize = 0;
        while j < k
            invariant
                k <= n,
                n == buffer@.len(),
                j <= k,
                buf == buffered(lines@, buffer@),
                forall|t: int| 0 <= t < buffer@.len() ==> buffer@[t] < lines@.len(),
                ctx@.len() == j,
                forall|t: int| 0 <= t < j ==> (#[trigger] ctx@[t])@ == context_text(buf[t]),
            decreases k - j,
        {
            ctx.push(self.format_context_line(&lines[buffer[j]].base));
            j = j + 1;
        }
        let mut act: Vec<String> = Vec::new();
        let mut j: usize = k;
        while j < n
            invariant
                k <= n,
                n == buffer@.len(),
                k <= j <= n,
                buf == buffered(lines@, buffer@),
                forall|t: int| 0 <= t < buffer@.len() ==> buffer@[t] < lines@.len(),
                act@.len() == j - k,
                forall|t: int| 0 <= t < j - k ==> (#[trigger] act@[t])@ == spoken_text(buf[t + k]),
            decreases n - j,
        {
            act.push(self.format_spoken_line(&lines[buffer[j]].base));
            j = j + 1;
        }
        assert(texts(ctx@) =~= buf.take(k as int).map_values(|b: LineBase| context_text(b)));
        assert(texts(act@) =~= buf.skip(k as int).map_values(|b: LineBase| spoken_text(b)));
        assert(buf.len() == n);
        assert(buf.take(k as int).len() == k);
        assert(buf.skip(k as int).len() == n - k);
        let mut out = String::new();
        if k > 0 {
            let joined = join_strings(&ctx, "\n");
            out.append("{");
            out.append(joined.as_str());
            out.append("}");
        }
        if k > 0 && k < n {
            out.append("\n");
        }
        let spoken = join_strings(&act, "\n");
        out.append(spoken.as_str());
        assert(out@ =~= other_block_text(buf));
        out
    }

    /// Writes the buffered lines out as one message (see `flush_spec`) and
    /// empties the buffer.
    fn flush(
        &self,
        lines: &[GameLine],
        memory: &mut Vec<LlmMessage>,
        buffer: &mut Vec<usize>,
        kind: &mut Option<BufferKind>,
    )
        requires
            forall|j: int| 0 <= j < old(buffer)@.len() ==> old(buffer)@[j] < lines@.len(),
        ensures
            messages_view(final(memory)@) == flush_spec(
                messages_view(old(memory)@),
                buffered(lines@, old(buffer)@),
                *old(kind),
            ),
            final(buffer)@.len() == 0,
            *final(kind) is None,
    {
        let ghost buf = buffered(lines@, buffer@);
        let ghost before = messages_view(memory@);
        if buffer.len() > 0 {
            match *kind {
                Some(BufferKind::TargetAssistant) => {
                    let mut parts: Vec<String> = Vec::new();
                    let mut j: usize = 0;
                    while j < buffer.len()
                        invariant
                            j <= buffer@.len(),
                            buf == buffered(lines@, buffer@),
                            forall|t: int| 0 <= t < buffer@.len() ==> buffer@[t] < lines@.len(),
                            parts@.len() == j,
                            forall|t: int| 0 <= t < j ==> (#[trigger] parts@[t])@ == extras_text(buf[t]),
                        decreases buffer.len() - j,
                    {
                        parts.push(self.format_content_with_extras(&lines[buffer[j]].base));
                        j = j + 1;
                    }
                    assert(texts(parts@) =~= buf.map_values(|b: LineBase| extras_text(b)));
                    let full = concat_strings(&parts);
                    if !is_blank(full.as_str()) {
                        memory.push(LlmMessage::assistant(full));
                        assert(messages_view(memory@) =~= before.push(messages_view(memory@).last()));
                    }
                },
                Some(BufferKind::OtherBlock) => {
                    let text = self.other_block_message(lines, buffer);
                    memory.push(LlmMessage::user(text));
                    assert(messages_view(memory@) =~= before.push(messages_view(memory@).last()));
                },
                None => {},
            }
        }
        buffer.clear();
        *kind = None;
    }
}

/// A blank line (`\n\n`) starts at position `i` of `s`.
pub open spec fn is_break_at(s: Seq<char>, i: int) -> bool {
    0 <= i && i + 1 < s.len() && s[i] == '\n' && s[i + 1] == '\n'
}

/// `i` is the first position where a blank line starts.
pub open spec fn is_first_break(s: Seq<char>, i: int) -> bool {
    is_break_at(s, i) && forall|j: int| 0 <= j < i ==> !is_break_at(s, j)
}

/// The part of an old-style tool-call line before its first `\n\n`
/// (all of it when there is none): the JSON of the calls.
pub open spec fn legacy_head(s: Seq<char>) -> Seq<char> {
    if exists|i: int| is_first_break(s, i) {
        s.take(choose|i: int| is_first_break(s, i))
    } else {
        s
    }
}

/// The part of an old-style tool-call line after its first `\n\n` (nothing
/// when there is none): the text spoken with the calls.
pub open spec fn legacy_tail(s: Seq<char>) -> Seq<char> {
    if exists|i: int| is_first_break(s, i) {
        s.skip((choose|i: int| is_first_break(s, i)) + 2)
    } else {
        Seq::<char>::empty()
    }
}

/// There is at most one first blank line.
pub proof fn lemma_first_break_unique(s: Seq<char>, i: int, j: int)
    requires
        is_first_break(s, i),
        is_first_break(s, j),
    ensures
        i == j,
{
    if i < j {
        assert(!is_break_at(s, i));
    } else if j < i {
        assert(!is_break_at(s, j));
    }
}

/// The JSON text of the tool calls an assistant line may announce: its
/// `tool_call` field when that is a non-empty text; otherwise, when its
/// content is not empty, the old-style part before the first blank line.
/// Lines of other attributes announce none.
pub open spec fn announced_tool_calls(b: LineBase) -> Option<Seq<char>> {
    if b.attribute.0 != LineAttribute::Assistant {
        None
    } else {
        match nonempty(b.tool_call) {
            Some(t) => Some(t),
            None => if b.content@.len() > 0 { Some(legacy_head(b.content@)) } else { None },
        }
    }
}

/// The text of the `assistant` message that carries a line's tool calls: the
/// content of a line with a `tool_call` field, the old-style part after the
/// first blank line otherwise.
pub open spec fn tool_call_text(b: LineBase) -> Seq<char> {
    match nonempty(b.tool_call) {
        Some(_) => b.content@,
        None => legacy_tail(b.content@),
    }
}

/// The position of the first blank line of `cs`, if any.
fn find_break(cs: &Vec<char>) -> (r: Option<usize>)
    ensures
        match r {
            Some(i) => is_first_break(cs@, i as int),
            None => !exists|i: int| is_first_break(cs@, i),
        },
{
    let n = cs.len();
    let mut i: usize = 0;
    while i < n && i + 1 < n
        invariant
            n == cs@.len(),
            i <= n,
            forall|j: int| 0 <= j < i ==> !is_break_at(cs@, j),
        decreases n - i,
    {
        if cs[i] == '\n' && cs[i + 1] == '\n' {
            return Some(i);
        }
        i = i + 1;
    }
    assert forall|j: int| !is_first_break(cs@, j) by {
        if is_first_break(cs@, j) {
            assert(is_break_at(cs@, j));
        }
    }
    None
}

/// Splits an old-style tool-call line at its first blank line:
/// `(legacy_head, legacy_tail)`.
pub fn split_legacy(content: &str) -> (r: (String, String))
    ensures
        r.0@ == legacy_head(content@),
        r.1@ == legacy_tail(content@),
{
    let cs = chars_of(content);
    match find_break(&cs) {
        Some(i) => {
            assert(is_break_at(cs@, i as int));
            let n = cs.len();
            assert(i + 2 <= n);
            proof {
                let c = choose|k: int| is_first_break(content@, k);
                lemma_first_break_unique(content@, i as int, c);
            }
            let head = content.substring_char(0, i).to_owned();
            let tail = content.substring_char(i + 2, n).to_owned();
            assert(tail@ =~= content@.skip(i + 2));
            (head, tail)
        },
        None => {
            let tail = String::new();
            (content.to_owned(), tail)
        },
    }
}

/// The JSON text whose decoding, as a list of tool calls, decides whether an
/// assistant line is a tool-call line (see `announced_tool_calls`).
pub fn tool_call_json(line: &GameLine) -> (r: Option<String>)
    ensures
        opt_view(r) == announced_tool_calls(line.base),
{
    if *line.attribute() != LineAttribute::Assistant {
        return None;
    }
    match non_empty(&line.base.tool_call) {
        Some(t) => Some(t.to_owned()),
        None => {
            if line.base.content.as_str().is_empty() {
                None
            } else {
                let (head, _) = split_legacy(line.base.content.as_str());
                Some(head)
            }
        },
    }
}

/// The text of the `assistant` message carrying a line's tool calls (see
/// `tool_call_text`).
fn tool_call_message_text(b: &LineBase) -> (r: String)
    ensures
        r@ == tool_call_text(*b),
{
    match non_empty(&b.tool_call) {
        Some(_) => b.content.clone(),
        None => {
            let (_, tail) = split_legacy(b.content.as_str());
            tail
        },
    }
}

/// The ids a list of strings holds.
pub open spec fn id_set(v: Seq<String>) -> Set<Seq<char>> {
    Set::new(|x: Seq<char>| exists|i: int| 0 <= i < v.len() && (#[trigger] v[i])@ == x)
}

/// The ids of a list of calls that are not blank: the ids awaiting a result
/// once the calls are announced.
pub open spec fn call_ids(cs: Seq<ToolCallView>) -> Set<Seq<char>> {
    Set::new(|x: Seq<char>| exists|i: int| 0 <= i < cs.len() && (#[trigger] cs[i]).id == x && !blank(x))
}

/// Whether `x` is among the ids.
fn holds_id(ids: &Vec<String>, x: &str) -> (r: bool)
    ensures
        r == id_set(ids@).contains(x@),
{
    let mut i: usize = 0;
    while i < ids.len()
        invariant
            i <= ids@.len(),
            forall|j: int| 0 <= j < i ==> (#[trigger] ids@[j])@ != x@,
        decreases ids.len() - i,
    {
        if str_eq(ids[i].as_str(), x) {
            assert(ids@[i as int]@ == x@);
            return true;
        }
        i = i + 1;
    }
    false
}

/// The ids without `x`.
fn without_id(ids: &Vec<String>, x: &str) -> (r: Vec<String>)
    ensures
        id_set(r@) == id_set(ids@).remove(x@),
{
    let mut out: Vec<String> = Vec::new();
    let mut i: usize = 0;
    while i < ids.len()
        invariant
            i <= ids@.len(),
            id_set(out@) == id_set(ids@.take(i as int)).remove(x@),
        decreases ids.len() - i,
    {
        let ghost before = out@;
        if !str_eq(ids[i].as_str(), x) {
            out.push(ids[i].clone());
        }
        assert(ids@.take(i + 1) =~= ids@.take(i as int).push(ids@[i as int]));
        assert(id_set(out@) =~= id_set(ids@.take(i + 1)).remove(x@)) by {
            assert forall|y: Seq<char>| id_set(out@).contains(y) implies id_set(ids@.take(i + 1)).remove(x@).contains(y) by {
                let k = choose|k: int| 0 <= k < out@.len() && (#[trigger] out@[k])@ == y;
                if k < before.len() {
                    assert(before[k] == out@[k]);
                    assert(id_set(before).contains(y));
                    let m = choose|m: int| 0 <= m < i && (#[trigger] ids@.take(i as int)[m])@ == y;
                    assert(ids@.take(i + 1)[m] == ids@.take(i as int)[m]);
                } else {
                    assert(ids@.take(i + 1)[i as int] == ids@[i as int]);
                }
            }
            assert forall|y: Seq<char>| id_set(ids@.take(i + 1)).remove(x@).contains(y) implies id_set(out@).contains(y) by {
                let m = choose|m: int| 0 <= m < i + 1 && (#[trigger] ids@.take(i + 1)[m])@ == y;
                if m < i {
                    assert(ids@.take(i as int)[m] == ids@.take(i + 1)[m]);
                    assert(id_set(ids@.take(i as int)).contains(y));
                    assert(id_set(before).contains(y));
                    let k = choose|k: int| 0 <= k < before.len() && (#[trigger] before[k])@ == y;
                    assert(out@[k] == before[k]);
                } else {
                    assert(out@[out@.len() - 1]@ == y);
                }
            }
        }
        i = i + 1;
    }
    assert(ids@.take(i as int) =~= ids@);
    out
}

/// Records the non-blank ids of announced calls as awaiting a result.
pub fn register_tool_call_ids(open: &mut Vec<String>, calls: &Vec<ToolCall>)
    ensures
        id_set(final(open)@) == id_set(old(open)@).union(call_ids(calls_view(calls@))),
{
    let ghost start = open@;
    let ghost cs = calls_view(calls@);
    let mut i: usize = 0;
    while i < calls.len()
        invariant
            i <= calls@.len(),
            cs == calls_view(calls@),
            id_set(open@) == id_set(start).union(call_ids(cs.take(i as int))),
        decreases calls.len() - i,
    {
        let ghost before = open@;
        let blank_id = is_blank(calls[i].id.as_str());
        if !blank_id {
            open.push(calls[i].id.clone());
        }
        assert(id_set(open@) =~= id_set(start).union(call_ids(cs.take(i + 1)))) by {
            assert forall|y: Seq<char>| id_set(open@).contains(y) implies id_set(start).union(call_ids(cs.take(i + 1))).contains(y) by {
                let k = choose|k: int| 0 <= k < open@.len() && (#[trigger] open@[k])@ == y;
                if k < before.len() {
                    assert(before[k] == open@[k]);
                    assert(id_set(before).contains(y));
                    if !id_set(start).contains(y) {
                        let m = choose|m: int| 0 <= m < i && (#[trigger] cs.take(i as int)[m]).id == y && !blank(y);
                        assert(cs.take(i + 1)[m] == cs.take(i as int)[m]);
                    }
                } else {
                    assert(cs.take(i + 1)[i as int] == cs[i as int]);
                }
            }
            assert forall|y: Seq<char>| id_set(start).union(call_ids(cs.take(i + 1))).contains(y) implies id_set(open@).contains(y) by {
                if id_set(start).contains(y) {
                    assert(id_set(before).contains(y));
                    let k = choose|k: int| 0 <= k < before.len() && (#[trigger] before[k])@ == y;
                    assert(open@[k] == before[k]);
                } else {
                    let m = choose|m: int| 0 <= m < i + 1 && (#[trigger] cs.take(i + 1)[m]).id == y && !blank(y);
                    if m < i {
                        assert(cs.take(i as int)[m] == cs.take(i + 1)[m]);
                        assert(call_ids(cs.take(i as int)).contains(y));
                        assert(id_set(before).contains(y));
                        let k = choose|k: int| 0 <= k < before.len() && (#[trigger] before[k])@ == y;
                        assert(open@[k] == before[k]);
                    } else {
                        assert(open@[open@.len() - 1]@ == y);
                    }
                }
            }
        }
        i = i + 1;
    }
    assert(cs.take(i as int) =~= cs);
}

/// Where the builder stands after some lines: the messages written so far,
/// the buffered lines and what they are, whether the target's persona line
/// was taken, and the ids of announced calls still awaiting a result.
#[verifier::ext_equal]
pub struct BuildState {
    pub memory: Seq<MessageView>,
    pub buffer: Seq<LineBase>,
    pub kind: Option<BufferKind>,
    pub has_system: bool,
    pub open: Set<Seq<char>>,
}

pub open spec fn initial_state() -> BuildState {
    BuildState {
        memory: Seq::empty(),
        buffer: Seq::empty(),
        kind: None,
        has_system: false,
        open: Set::empty(),
    }
}

/// The `assistant` message that carries the announced calls of a line.
pub open spec fn tool_call_message(b: LineBase, cs: Seq<ToolCallView>) -> MessageView {
    MessageView {
        role: role_assistant(),
        content: tool_call_text(b),
        tool_calls: Some(cs),
        tool_call_id: None,
    }
}

/// The `tool` message that answers call `id`.
pub open spec fn tool_message(id: Seq<char>, text: Seq<char>) -> MessageView {
    MessageView { role: role_tool(), content: text, tool_calls: None, tool_call_id: Some(id) }
}

/// What a tool-result line answers, and with what text: its decoded
/// payload, or no id and the raw content when the payload is not JSON.
pub open spec fn result_fields(
    result: Option<(Option<Seq<char>>, Seq<char>)>,
    content: Seq<char>,
) -> (Option<Seq<char>>, Seq<char>) {
    match result {
        Some(r) => r,
        None => (None, content),
    }
}

/// The state after the buffer is written out.
pub open spec fn flushed(st: BuildState) -> BuildState {
    BuildState {
        memory: flush_spec(st.memory, st.buffer, st.kind),
        buffer: Seq::empty(),
        kind: None,
        has_system: st.has_system,
        open: st.open,
    }
}

/// One line taken in. `calls` is the decoding of the line's announced tool
/// calls (`announced_tool_calls`), `None` when they do not decode; `result`
/// the decoding of a tool-result payload (`tool_result_payload`).
///
/// - A `System` line of the target writes the buffer out and becomes the one
///   `system` message; later ones are skipped. Others' `System` lines are
///   ignored.
/// - An `Assistant` line whose announced calls decode writes the buffer out,
///   becomes an `assistant` message carrying the calls, and their non-blank
///   ids await results.
/// - A `Tool` line writes the buffer out; it becomes a `tool` message only
///   when it answers an id that awaits a result, which then stops waiting.
/// - Any other line the target neither sent nor perceived is ignored.
/// - The target's own `Assistant` line joins a buffer of its own lines (a
///   buffer of others' lines is written out first); any other line joins a
///   buffer of others' lines (a buffer of the target's lines is written out
///   first).
pub open spec fn step(
    target: i32,
    st: BuildState,
    line: GameLine,
    calls: Option<Seq<ToolCallView>>,
    result: Option<(Option<Seq<char>>, Seq<char>)>,
) -> BuildState {
    let b = line.base;
    let attr = b.attribute.0;
    let cleared = flushed(st);
    if attr == LineAttribute::System {
        if b.sender_role_id == Some(target) {
            BuildState {
                memory: if st.has_system {
                    cleared.memory
                } else {
                    cleared.memory.push(plain_message(role_system(), b.content@))
                },
                has_system: true,
                ..cleared
            }
        } else {
            st
        }
    } else if announced_tool_calls(b) is Some && calls is Some {
        let cs = calls->0;
        BuildState {
            memory: cleared.memory.push(tool_call_message(b, cs)),
            open: st.open.union(call_ids(cs)),
            ..cleared
        }
    } else if attr == LineAttribute::Tool {
        let fields = result_fields(result, b.content@);
        match fields.0 {
            Some(id) => if st.open.contains(id) {
                BuildState {
                    memory: cleared.memory.push(tool_message(id, fields.1)),
                    open: st.open.remove(id),
                    ..cleared
                }
            } else {
                cleared
            },
            None => cleared,
        }
    } else if !concerns(target, line) {
        st
    } else if b.sender_role_id == Some(target) && attr == LineAttribute::Assistant {
        if st.kind == Some(BufferKind::OtherBlock) {
            BuildState { buffer: seq![b], kind: Some(BufferKind::TargetAssistant), ..cleared }
        } else {
            BuildState { buffer: st.buffer.push(b), kind: Some(BufferKind::TargetAssistant), ..st }
        }
    } else {
        if st.kind == Some(BufferKind::TargetAssistant) {
            BuildState { buffer: seq![b], kind: Some(BufferKind::OtherBlock), ..cleared }
        } else {
            BuildState { buffer: st.buffer.push(b), kind: Some(BufferKind::OtherBlock), ..st }
        }
    }
}

/// The state after the first `n` lines.
pub open spec fn run(
    target: i32,
    lines: Seq<GameLine>,
    calls: Seq<Option<Seq<ToolCallView>>>,
    results: Seq<Option<(Option<Seq<char>>, Seq<char>)>>,
    n: nat,
) -> BuildState
    decreases n,
{
    if n == 0 {
        initial_state()
    } else {
        let k = (n - 1) as nat;
        step(target, run(target, lines, calls, results, k), lines[k as int], calls[k as int], results[k as int])
    }
}

/// An `assistant` message that still carries a call awaiting its result.
pub open spec fn has_dangling_call(m: MessageView, open: Set<Seq<char>>) -> bool {
    m.role == role_assistant() && match m.tool_calls {
        Some(cs) => awaits_any(cs, open),
        None => false,
    }
}

/// One of the calls still awaits its result.
pub open spec fn awaits_any(cs: Seq<ToolCallView>, open: Set<Seq<char>>) -> bool {
    exists|i: int| 0 <= i < cs.len() && open.contains(#[trigger] cs[i].id)
}

/// A message without its calls when one of them still awaits its result.
pub open spec fn strip_one(m: MessageView, open: Set<Seq<char>>) -> MessageView {
    if has_dangling_call(m, open) {
        MessageView { tool_calls: None, ..m }
    } else {
        m
    }
}

/// The messages, each stripped of its calls when one still awaits a result.
pub open spec fn strip(mem: Seq<MessageView>, open: Set<Seq<char>>) -> Seq<MessageView> {
    mem.map_values(|m: MessageView| strip_one(m, open))
}

/// The messages for `target` from `lines` before calls are stripped: every
/// line taken in and the buffer written out.
pub open spec fn collected_messages(
    target: i32,
    lines: Seq<GameLine>,
    calls: Seq<Option<Seq<ToolCallView>>>,
    results: Seq<Option<(Option<Seq<char>>, Seq<char>)>>,
) -> Seq<MessageView> {
    let st = run(target, lines, calls, results, lines.len());
    flush_spec(st.memory, st.buffer, st.kind)
}

/// The ids still awaiting a result once every line is taken in.
pub open spec fn unanswered_ids(
    target: i32,
    lines: Seq<GameLine>,
    calls: Seq<Option<Seq<ToolCallView>>>,
    results: Seq<Option<(Option<Seq<char>>, Seq<char>)>>,
) -> Set<Seq<char>> {
    run(target, lines, calls, results, lines.len()).open
}

/// The message carries a call with id `x`.
pub open spec fn carries(m: MessageView, x: Seq<char>) -> bool {
    match m.tool_calls {
        Some(cs) => has_call_id(cs, x),
        None => false,
    }
}

/// One of the calls has id `x`.
pub open spec fn has_call_id(cs: Seq<ToolCallView>, x: Seq<char>) -> bool {
    exists|i: int| 0 <= i < cs.len() && (#[trigger] cs[i]).id == x
}

/// The message is the `tool` message answering call `x`.
pub open spec fn answers(m: MessageView, x: Seq<char>) -> bool {
    m.role == role_tool() && m.tool_call_id == Some(x)
}

/// Message `k` stays in the list sent to the LLM: it is no `tool` message,
/// or an earlier message still carries the call it answers.
pub open spec fn paired_at(ms: Seq<MessageView>, k: int) -> bool {
    ms[k].role != role_tool() || match ms[k].tool_call_id {
        Some(x) => exists|j: int| 0 <= j < k && carries(ms[j], x),
        None => false,
    }
}

/// The first `n` messages without the `tool` messages whose call no earlier
/// message carries any more.
pub open spec fn drop_unpaired(ms: Seq<MessageView>, n: nat) -> Seq<MessageView>
    decreases n,
{
    if n == 0 {
        Seq::empty()
    } else {
        let k = (n - 1) as nat;
        if paired_at(ms, k as int) {
            drop_unpaired(ms, k).push(ms[k as int])
        } else {
            drop_unpaired(ms, k)
        }
    }
}

/// The messages for `target` from `lines`: every line taken in, the buffer
/// written out, the calls of each message stripped when one of them still
/// awaits its result, and then every `tool` message dropped whose call no
/// earlier message carries any more, so that no unpaired result reaches the
/// LLM.
pub open spec fn built_messages(
    target: i32,
    lines: Seq<GameLine>,
    calls: Seq<Option<Seq<ToolCallView>>>,
    results: Seq<Option<(Option<Seq<char>>, Seq<char>)>>,
) -> Seq<MessageView> {
    let stripped = strip(
        collected_messages(target, lines, calls, results),
        unanswered_ids(target, lines, calls, results),
    );
    drop_unpaired(stripped, stripped.len())
}

/// The decoded calls of a line, as characters.
pub open spec fn opt_calls_view(o: Option<Vec<ToolCall>>) -> Option<Seq<ToolCallView>> {
    match o {
        Some(v) => Some(calls_view(v@)),
        None => None,
    }
}

/// The decoded tool result of a line, as characters.
pub open spec fn opt_result_view(o: Option<ToolResult>) -> Option<(Option<Seq<char>>, Seq<char>)> {
    match o {
        Some(r) => Some(r@),
        None => None,
    }
}

/// The working state of one `build`.
struct Collector {
    memory: Vec<LlmMessage>,
    /// Positions, in the input, of the buffered lines.
    buffer: Vec<usize>,
    kind: Option<BufferKind>,
    has_system: bool,
    /// Ids of announced calls still awaiting a result.
    open: Vec<String>,
}

/// The working state as a `BuildState`.
spec fn state_of(c: Collector, lines: Seq<GameLine>) -> BuildState {
    BuildState {
        memory: messages_view(c.memory@),
        buffer: buffered(lines, c.buffer@),
        kind: c.kind,
        has_system: c.has_system,
        open: id_set(c.open@),
    }
}

/// The buffered positions lie within the input.
spec fn positions_ok(c: Collector, n: int) -> bool {
    forall|j: int| 0 <= j < c.buffer@.len() ==> c.buffer@[j] < n
}

/// Whether the line announces tool calls (see `announced_tool_calls`).
fn announces_tool_calls(b: &LineBase) -> (r: bool)
    ensures
        r == announced_tool_calls(*b) is Some,
{
    if b.attribute.0 != LineAttribute::Assistant {
        return false;
    }
    match non_empty(&b.tool_call) {
        Some(_) => true,
        None => !b.content.as_str().is_empty(),
    }
}

/// A copy of an optional string.
fn copy_opt(o: &Option<String>) -> (r: Option<String>)
    ensures
        opt_view(r) == opt_view(*o),
{
    match o {
        Some(s) => Some(s.clone()),
        None => None,
    }
}

impl MemoryBuilder {
    /// Takes line `i` in (see `step`).
    fn absorb(
        &self,
        lines: &[GameLine],
        i: usize,
        calls: &Option<Vec<ToolCall>>,
        result: &Option<ToolResult>,
        c: &mut Collector,
    )
        requires
            i < lines@.len(),
            positions_ok(*old(c), lines@.len() as int),
        ensures
            positions_ok(*final(c), lines@.len() as int),
            state_of(*final(c), lines@) == step(
                self.target_role_id,
                state_of(*old(c), lines@),
                lines@[i as int],
                opt_calls_view(*calls),
                opt_result_view(*result),
            ),
    {
        proof {
            reveal_strlit("assistant");
            reveal_strlit("tool");
        }
        assert("assistant"@ =~= role_assistant());
        assert("tool"@ =~= role_tool());
        let ghost st = state_of(*c, lines@);
        let line = &lines[i];
        let attr = *line.attribute();
        if attr == LineAttribute::System {
            if line.sender_role_id() == Some(self.target_role_id) {
                self.flush(lines, &mut c.memory, &mut c.buffer, &mut c.kind);
                let ghost cleared = messages_view(c.memory@);
                if !c.has_system {
                    c.has_system = true;
                    c.memory.push(LlmMessage::system(line.base.content.clone()));
                    assert(messages_view(c.memory@) =~= cleared.push(
                        plain_message(role_system(), line.base.content@),
                    ));
                }
                assert(state_of(*c, lines@) =~= step(
                    self.target_role_id, st, lines@[i as int], opt_calls_view(*calls), opt_result_view(*result)));
            }
            return;
        }
        if announces_tool_calls(&line.base) {
            if let Some(cs) = calls {
                self.flush(lines, &mut c.memory, &mut c.buffer, &mut c.kind);
                let ghost cleared = messages_view(c.memory@);
                register_tool_call_ids(&mut c.open, cs);
                let text = tool_call_message_text(&line.base);
                let role = "assistant".to_owned();
                c.memory.push(
                    LlmMessage { role, content: text, tool_calls: Some(duplicate_calls(cs)), tool_call_id: None },
                );
                assert(messages_view(c.memory@) =~= cleared.push(tool_call_message(line.base, calls_view(cs@))));
                assert(state_of(*c, lines@) =~= step(
                    self.target_role_id, st, lines@[i as int], opt_calls_view(*calls), opt_result_view(*result)));
                return;
            }
        }
        if attr == LineAttribute::Tool {
            self.flush(lines, &mut c.memory, &mut c.buffer, &mut c.kind);
            let ghost cleared = messages_view(c.memory@);
            let (id, text): (Option<String>, String) = match result {
                Some(r) => (copy_opt(&r.tool_call_id), r.result.clone()),
                None => (None, line.base.content.clone()),
            };
            if let Some(x) = id {
                if holds_id(&c.open, x.as_str()) {
                    let rest = without_id(&c.open, x.as_str());
                    c.open = rest;
                    let role = "tool".to_owned();
                    c.memory.push(LlmMessage { role, content: text, tool_calls: None, tool_call_id: Some(x) });
                    assert(messages_view(c.memory@) =~= cleared.push(tool_message(x@, text@)));
                }
            }
            assert(state_of(*c, lines@) =~= step(
                self.target_role_id, st, lines@[i as int], opt_calls_view(*calls), opt_result_view(*result)));
            return;
        }
        if !self.is_target(line) {
            return;
        }
        if line.sender_role_id() == Some(self.target_role_id) && attr == LineAttribute::Assistant {
            if matches!(c.kind, Some(BufferKind::OtherBlock)) {
                self.flush(lines, &mut c.memory, &mut c.buffer, &mut c.kind);
            }
            c.kind = Some(BufferKind::TargetAssistant);
        } else {
            if matches!(c.kind, Some(BufferKind::TargetAssistant)) {
                self.flush(lines, &mut c.memory, &mut c.buffer, &mut c.kind);
            }
            c.kind = Some(BufferKind::OtherBlock);
        }
        let ghost before = c.buffer@;
        c.buffer.push(i);
        assert(buffered(lines@, c.buffer@) =~= buffered(lines@, before).push(lines@[i as int].base));
        assert(state_of(*c, lines@) =~= step(
            self.target_role_id, st, lines@[i as int], opt_calls_view(*calls), opt_result_view(*result)));
    }
}

/// Decoded tool calls for each of `n` lines; lines past the end of `v` have none.
pub open spec fn decoded_calls(v: Seq<Option<Vec<ToolCall>>>, n: nat) -> Seq<Option<Seq<ToolCallView>>> {
    Seq::new(n, |i: int| if i < v.len() { opt_calls_view(v[i]) } else { None })
}

/// Decoded tool results for each of `n` lines; lines past the end of `v` have none.
pub open spec fn decoded_results(
    v: Seq<Option<ToolResult>>,
    n: nat,
) -> Seq<Option<(Option<Seq<char>>, Seq<char>)>> {
    Seq::new(n, |i: int| if i < v.len() { opt_result_view(v[i]) } else { None })
}

/// The decoded payload of each tool-result line (`tool_result_payload` of its
/// content); other lines have none.
pub open spec fn payload_results(lines: Seq<GameLine>) -> Seq<Option<(Option<Seq<char>>, Seq<char>)>> {
    Seq::new(
        lines.len(),
        |i: int|
            if lines[i].base.attribute.0 == LineAttribute::Tool {
                tool_result_payload(lines[i].base.content@)
            } else {
                None
            },
    )
}

/// Whether the message still carries a call awaiting its result.
fn has_missing_result(m: &LlmMessage, open: &Vec<String>) -> (r: bool)
    ensures
        r == has_dangling_call(m@, id_set(open@)),
{
    proof {
        reveal_strlit("assistant");
    }
    assert("assistant"@ =~= role_assistant());
    if !str_eq(m.role.as_str(), "assistant") {
        return false;
    }
    match &m.tool_calls {
        Some(cs) => {
            let ghost v = calls_view(cs@);
            assert(m@.tool_calls == Some(v));
            let mut k: usize = 0;
            while k < cs.len()
                invariant
                    k <= cs@.len(),
                    v == calls_view(cs@),
                    m@.role == role_assistant(),
                    m@.tool_calls == Some(v),
                    forall|j: int| 0 <= j < k ==> !id_set(open@).contains(#[trigger] v[j].id),
                decreases cs.len() - k,
            {
                if holds_id(open, cs[k].id.as_str()) {
                    assert(id_set(open@).contains(v[k as int].id));
                    assert(m@.role == role_assistant());
                    assert(awaits_any(v, id_set(open@)));
                    return true;
                }
                k = k + 1;
            }
            false
        },
        None => false,
    }
}

/// Strips the calls of every message that still carries one awaiting its
/// result (see `strip`).
fn strip_dangling(memory: &mut Vec<LlmMessage>, open: &Vec<String>)
    ensures
        messages_view(final(memory)@) == strip(messages_view(old(memory)@), id_set(open@)),
{
    let ghost orig = messages_view(memory@);
    if open.len() == 0 {
        assert(messages_view(memory@) =~= strip(orig, id_set(open@))) by {
            assert forall|j: int| 0 <= j < orig.len() implies !has_dangling_call(
                #[trigger] orig[j],
                id_set(open@),
            ) by {
                assert(id_set(open@) =~= Set::<Seq<char>>::empty());
            }
        }
        return;
    }
    let mut i: usize = 0;
    while i < memory.len()
        invariant
            i <= memory@.len(),
            memory@.len() == orig.len(),
            forall|j: int| 0 <= j < i ==> (#[trigger] memory@[j])@ == strip_one(orig[j], id_set(open@)),
            forall|j: int| i <= j < memory@.len() ==> (#[trigger] memory@[j])@ == orig[j],
        decreases memory.len() - i,
    {
        if has_missing_result(&memory[i], open) {
            let role = memory[i].role.clone();
            let content = memory[i].content.clone();
            let tool_call_id = copy_opt(&memory[i].tool_call_id);
            memory.set(i, LlmMessage { role, content, tool_calls: None, tool_call_id });
        }
        i = i + 1;
    }
    assert(messages_view(memory@) =~= strip(orig, id_set(open@)));
}

/// Whether the message carries a call with id `x`.
fn message_carries(m: &LlmMessage, x: &str) -> (r: bool)
    ensures
        r == carries(m@, x@),
{
    match &m.tool_calls {
        Some(cs) => {
            let ghost v = calls_view(cs@);
            assert(m@.tool_calls == Some(v));
            let mut i: usize = 0;
            while i < cs.len()
                invariant
                    i <= cs@.len(),
                    v == calls_view(cs@),
                    m@.tool_calls == Some(v),
                    forall|j: int| 0 <= j < i ==> (#[trigger] v[j]).id != x@,
                decreases cs.len() - i,
            {
                if str_eq(cs[i].id.as_str(), x) {
                    assert(v[i as int].id == x@);
                    assert(has_call_id(v, x@));
                    return true;
                }
                i = i + 1;
            }
            false
        },
        None => false,
    }
}

/// Whether a message before position `k` carries a call with id `x`.
fn carried_before(ms: &Vec<LlmMessage>, k: usize, x: &str) -> (r: bool)
    requires
        k <= ms@.len(),
    ensures
        r == exists|j: int| 0 <= j < k && carries(messages_view(ms@)[j], x@),
{
    let mut j: usize = 0;
    while j < k
        invariant
            j <= k <= ms@.len(),
            forall|t: int| 0 <= t < j ==> !carries(#[trigger] messages_view(ms@)[t], x@),
        decreases k - j,
    {
        if message_carries(&ms[j], x) {
            assert(carries(messages_view(ms@)[j as int], x@));
            return true;
        }
        j = j + 1;
    }
    false
}

/// A copy of the message.
fn copy_message(m: &LlmMessage) -> (r: LlmMessage)
    ensures
        r@ == m@,
{
    let tool_calls = match &m.tool_calls {
        Some(cs) => Some(duplicate_calls(cs)),
        None => None,
    };
    LlmMessage {
        role: m.role.clone(),
        content: m.content.clone(),
        tool_calls,
        tool_call_id: copy_opt(&m.tool_call_id),
    }
}

/// The messages without the `tool` messages whose call no earlier message
/// carries (see `drop_unpaired`).
fn drop_unpaired_results(ms: &Vec<LlmMessage>) -> (r: Vec<LlmMessage>)
    ensures
        messages_view(r@) == drop_unpaired(messages_view(ms@), ms@.len()),
{
    proof {
        reveal_strlit("tool");
    }
    assert("tool"@ =~= role_tool());
    let ghost all = messages_view(ms@);
    let mut out: Vec<LlmMessage> = Vec::new();
    let mut i: usize = 0;
    assert(messages_view(out@) =~= drop_unpaired(all, 0));
    while i < ms.len()
        invariant
            i <= ms@.len(),
            all == messages_view(ms@),
            messages_view(out@) == drop_unpaired(all, i as nat),
        decreases ms.len() - i,
    {
        let m = &ms[i];
        proof {
            reveal_strlit("tool");
        }
        assert("tool"@ =~= role_tool());
        assert(all[i as int] == ms@[i as int]@);
        let keep = if str_eq(m.role.as_str(), "tool") {
            assert(all[i as int].role == role_tool());
            match &m.tool_call_id {
                Some(x) => {
                    assert(all[i as int].tool_call_id == Some(x@));
                    carried_before(ms, i, x.as_str())
                },
                None => false,
            }
        } else {
            assert(all[i as int].role != role_tool());
            true
        };
        assert(keep == paired_at(all, i as int));
        if keep {
            let ghost before = messages_view(out@);
            out.push(copy_message(m));
            assert(messages_view(out@) =~= before.push(all[i as int]));
        }
        i = i + 1;
    }
    out
}

impl MemoryBuilder {
    /// The messages for the target from `lines`, given how each line's tool
    /// calls (`tool_calls[i]`, see `tool_call_json`) and tool-result payload
    /// (`tool_results[i]`) decoded; missing entries count as not decoded.
    pub fn build_decoded(
        &self,
        lines: &[GameLine],
        tool_calls: &[Option<Vec<ToolCall>>],
        tool_results: &[Option<ToolResult>],
    ) -> (r: Vec<LlmMessage>)
        ensures
            messages_view(r@) == built_messages(
                self.target_role_id,
                lines@,
                decoded_calls(tool_calls@, lines@.len()),
                decoded_results(tool_results@, lines@.len()),
            ),
    {
        let ghost calls = decoded_calls(tool_calls@, lines@.len());
        let ghost results = decoded_results(tool_results@, lines@.len());
        let mut c = Collector {
            memory: Vec::new(),
            buffer: Vec::new(),
            kind: None,
            has_system: false,
            open: Vec::new(),
        };
        let no_calls: Option<Vec<ToolCall>> = None;
        let no_result: Option<ToolResult> = None;
        assert(state_of(c, lines@) =~= initial_state()) by {
            assert(messages_view(c.memory@) =~= Seq::<MessageView>::empty());
            assert(buffered(lines@, c.buffer@) =~= Seq::<LineBase>::empty());
            assert(id_set(c.open@) =~= Set::<Seq<char>>::empty());
        }
        let n = lines.len();
        let mut i: usize = 0;
        while i < n
            invariant
                n == lines@.len(),
                i <= n,
                calls == decoded_calls(tool_calls@, lines@.len()),
                results == decoded_results(tool_results@, lines@.len()),
                no_calls is None,
                no_result is None,
                positions_ok(c, n as int),
                state_of(c, lines@) == run(self.target_role_id, lines@, calls, results, i as nat),
            decreases n - i,
        {
            let line_calls = if i < tool_calls.len() {
                &tool_calls[i]
            } else {
                &no_calls
            };
            let line_result = if i < tool_results.len() {
                &tool_results[i]
            } else {
                &no_result
            };
            assert(opt_calls_view(*line_calls) == calls[i as int]);
            assert(opt_result_view(*line_result) == results[i as int]);
            self.absorb(lines, i, line_calls, line_result, &mut c);
            i = i + 1;
        }
        let ghost st = state_of(c, lines@);
        self.flush(lines, &mut c.memory, &mut c.buffer, &mut c.kind);
        strip_dangling(&mut c.memory, &c.open);
        assert(st.open == id_set(c.open@));
        drop_unpaired_results(&c.memory)
    }

    /// Builds the message list of the target character from the dialogue
    /// lines, in order. `tool_calls[i]` is the decoding, as a list of tool
    /// calls, of the text `tool_call_json(&lines[i])` names (`None` when
    /// there is none or it does not decode); missing entries count as `None`.
    /// The payload of each tool-result line is decoded here.
    pub fn build(&self, lines: &[GameLine], tool_calls: &[Option<Vec<ToolCall>>]) -> (r: Vec<LlmMessage>)
        ensures
            messages_view(r@) == built_messages(
                self.target_role_id,
                lines@,
                decoded_calls(tool_calls@, lines@.len()),
                payload_results(lines@),
            ),
    {
        let mut results: Vec<Option<ToolResult>> = Vec::new();
        let mut i: usize = 0;
        while i < lines.len()
            invariant
                i <= lines@.len(),
                results@.len() == i,
                forall|j: int|
                    0 <= j < i ==> opt_result_view(#[trigger] results@[j]) == payload_results(lines@)[j],
            decreases lines.len() - i,
        {
            if *lines[i].attribute() == LineAttribute::Tool {
                results.push(decode_tool_result(lines[i].content()));
            } else {
                results.push(None);
            }
            i = i + 1;
        }
        assert(decoded_results(results@, lines@.len()) =~= payload_results(lines@));
        self.build_decoded(lines, tool_calls, &results)
    }
}
} // verus!
