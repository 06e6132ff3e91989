//! Chat formatting.
//!
//! The GGUF's own Jinja template is used whenever it parses and renders, because that is the
//! format the model was actually trained on. The built-in formats exist only for files that
//! carry no template at all, or whose template uses a construct outside the subset - in which
//! case falling back to a recognised family beats emitting a malformed prompt.

use vstd::prelude::*;
use vstd::string::*;

use super::vocab::{opt_text, Vocab, VocabView};
use crate::jinja::eval::{rendered, Template};
use crate::jinja::nodes::{nds, parse_template, Nd};
use crate::jinja::number::{Host, Maths, NumOp};
use crate::jinja::value::{entries, insert, list, object, put_key, vals, Entry, Val, Value};
use crate::text::{cat3, contains_text, has_text, own, same, trim, trimmed};

verus! {

#[derive(Debug)]
pub struct ChatMessage {
    pub role: String,
    pub content: String,
}

impl View for ChatMessage {
    type V = (Seq<char>, Seq<char>);

    open spec fn view(&self) -> (Seq<char>, Seq<char>) {
        (self.role@, self.content@)
    }
}

/// The views of a conversation.
pub open spec fn turns(v: Seq<ChatMessage>) -> Seq<(Seq<char>, Seq<char>)> {
    Seq::new(v.len(), |i: int| v[i]@)
}

impl ChatMessage {
    pub fn new(role: &str, content: &str) -> (r: Self)
        ensures
            r@ == (role@, content@),
    {
        ChatMessage { role: own(role), content: own(content) }
    }
}

#[derive(Debug, Clone, Copy, PartialEq, Eq, Structural)]
pub enum Builtin {
    ChatMl,
    Llama3,
    Llama2,
    Gemma,
    Phi3,
    Plain,
}

// ----------------------------------------------------------------------- built-in formats

/// The format that a template or, failing that, the vocabulary looks like.
pub open spec fn builtin_of(v: VocabView) -> Builtin {
    let t = match v.chat_template {
        Some(s) => s,
        None => Seq::empty(),
    };
    let told = v.chat_template is Some;
    if told && has_text(t, "<|im_start|>"@) {
        Builtin::ChatMl
    } else if told && has_text(t, "<|start_header_id|>"@) {
        Builtin::Llama3
    } else if told && has_text(t, "<start_of_turn>"@) {
        Builtin::Gemma
    } else if told && has_text(t, "<|user|>"@) {
        Builtin::Phi3
    } else if told && has_text(t, "[INST]"@) {
        Builtin::Llama2
    } else if v.find("<|im_start|>"@) is Some {
        Builtin::ChatMl
    } else if v.find("<|eot_id|>"@) is Some {
        Builtin::Llama3
    } else if v.find("<start_of_turn>"@) is Some {
        Builtin::Gemma
    } else if v.find("<|user|>"@) is Some {
        Builtin::Phi3
    } else if v.find("[INST]"@) is Some {
        Builtin::Llama2
    } else {
        Builtin::Plain
    }
}

pub open spec fn has_system_role(b: Builtin) -> bool {
    b == Builtin::ChatMl || b == Builtin::Llama3 || b == Builtin::Phi3
}

pub open spec fn role_of(role: Seq<char>) -> Seq<char> {
    if role == "developer"@ {
        "system"@
    } else {
        role
    }
}

/// One turn in a built-in format.
pub open spec fn turn(b: Builtin, role: Seq<char>, content: Seq<char>) -> Seq<char> {
    match b {
        Builtin::ChatMl => "<|im_start|>"@ + role + "\n"@ + content + "<|im_end|>\n"@,
        Builtin::Llama3 => "<|start_header_id|>"@ + role + "<|end_header_id|>\n\n"@ + content
            + "<|eot_id|>"@,
        Builtin::Phi3 => "<|"@ + role + "|>\n"@ + content + "<|end|>\n"@,
        Builtin::Gemma => (if role == "assistant"@ {
            "<start_of_turn>model\n"@
        } else {
            "<start_of_turn>user\n"@
        }) + content + "<end_of_turn>\n"@,
        Builtin::Llama2 => if role == "user"@ {
            "[INST] "@ + content + " [/INST]"@
        } else {
            " "@ + content + " "@
        },
        Builtin::Plain => (if role == "user"@ {
            "User: "@
        } else if role == "assistant"@ {
            "Assistant: "@
        } else {
            "System: "@
        }) + content + "\n"@,
    }
}

/// The turns from `i` on, `held` being system text that waits for a turn to go into. Formats
/// without a system role fold it into the next turn.
pub open spec fn turns_from(
    b: Builtin,
    m: Seq<(Seq<char>, Seq<char>)>,
    i: nat,
    held: Seq<char>,
) -> Seq<char>
    decreases m.len() - i,
{
    if i >= m.len() {
        Seq::empty()
    } else {
        let role = role_of(m[i as int].0);
        let content = m[i as int].1;
        if role == "system"@ && !has_system_role(b) {
            let more = if held.len() > 0 {
                held + "\n"@ + content
            } else {
                content
            };
            turns_from(b, m, i + 1, more)
        } else if held.len() > 0 && role != "system"@ {
            turn(b, role, held + "\n\n"@ + content) + turns_from(b, m, i + 1, Seq::empty())
        } else {
            turn(b, role, content) + turns_from(b, m, i + 1, held)
        }
    }
}

/// What asks the model for its turn.
pub open spec fn opening(b: Builtin) -> Seq<char> {
    match b {
        Builtin::ChatMl => "<|im_start|>assistant\n"@,
        Builtin::Llama3 => "<|start_header_id|>assistant<|end_header_id|>\n\n"@,
        Builtin::Gemma => "<start_of_turn>model\n"@,
        Builtin::Phi3 => "<|assistant|>\n"@,
        Builtin::Llama2 => ""@,
        Builtin::Plain => "Assistant:"@,
    }
}

pub open spec fn built_in(b: Builtin, m: Seq<(Seq<char>, Seq<char>)>, add_gen: bool) -> Seq<char> {
    turns_from(b, m, 0, Seq::empty()) + (if add_gen {
        opening(b)
    } else {
        Seq::empty()
    })
}

// --------------------------------------------------------------------------- the template

pub open spec fn message_val(m: (Seq<char>, Seq<char>)) -> Val {
    Val::Object(
        put_key(
            put_key(Seq::empty(), "role"@, Val::Str(m.0)),
            "content"@,
            Val::Str(m.1),
        ),
    )
}

/// The variables that a template gets.
pub open spec fn context_of(
    m: Seq<(Seq<char>, Seq<char>)>,
    add_gen: bool,
    bos: Seq<char>,
    eos: Seq<char>,
    thinking: Option<bool>,
) -> Val {
    let c = Seq::empty();
    let c = put_key(
        c,
        "messages"@,
        Val::List(Seq::new(m.len(), |i: int| message_val(m[i]))),
    );
    let c = put_key(c, "add_generation_prompt"@, Val::Bool(add_gen));
    let c = put_key(c, "bos_token"@, Val::Str(bos));
    let c = put_key(c, "eos_token"@, Val::Str(eos));
    // Several templates branch on these even when no tools are in play.
    let c = put_key(c, "tools"@, Val::Null);
    let c = put_key(c, "tools_in_user_message"@, Val::Bool(false));
    let c = put_key(c, "add_vision_id"@, Val::Bool(false));
    // Left undefined unless asked for, so the model's own default applies.
    let c = match thinking {
        Some(t) => put_key(c, "enable_thinking"@, Val::Bool(t)),
        None => c,
    };
    Val::Object(c)
}

/// A minimal conversation used to check that a template renders. It has no system turn:
/// several templates reject that role by design.
pub open spec fn probe(bos: Seq<char>, eos: Seq<char>) -> Val {
    context_of(seq![("user"@, "u"@), ("assistant"@, "a"@)], true, bos, eos, None)
}

/// The nodes of the file's own template, where it parses and renders, else why it does not.
pub open spec fn own_template(h: Host, v: VocabView, bos: Seq<char>, eos: Seq<char>) -> Result<
    Seq<Nd>,
    Option<Seq<char>>,
> {
    match v.chat_template {
        None => Err(None),
        Some(src) => if trimmed(src).len() == 0 {
            Err(None)
        } else {
            match parse_template(h, src) {
                Err(e) => Err(Some(e)),
                Ok(n) => match rendered(h, n, probe(bos, eos)) {
                    Err(e) => Err(Some(e)),
                    Ok(_) => Ok(n),
                },
            }
        },
    }
}

// ------------------------------------------------------------------------------ stop ids

/// `s` with `x` in its place, where the ids of `s` ascend.
pub open spec fn put_id(s: Seq<u32>, x: u32) -> Seq<u32>
    decreases s.len(),
{
    if s.len() == 0 {
        seq![x]
    } else if s.last() == x {
        s
    } else if s.last() < x {
        s.push(x)
    } else {
        put_id(s.drop_last(), x).push(s.last())
    }
}

/// The different ids among the first `n`, in ascending order.
pub open spec fn ids_sorted(a: Seq<u32>, n: nat) -> Seq<u32>
    decreases n,
{
    if n == 0 || n > a.len() {
        Seq::empty()
    } else {
        put_id(ids_sorted(a, (n - 1) as nat), a[n - 1])
    }
}

pub open spec fn ids_ascend(s: Seq<u32>) -> bool {
    forall|i: int, j: int| 0 <= i < j < s.len() ==> (#[trigger] s[i]) < (#[trigger] s[j])
}

/// `s` with the id of a token, where the vocabulary has it.
pub open spec fn with_token(v: VocabView, s: Seq<u32>, t: Seq<char>) -> Seq<u32> {
    match v.find(t) {
        Some(id) => put_id(s, id),
        None => s,
    }
}

/// The ids that end a turn: the end tokens of the file and those that are known by name.
pub open spec fn stop_ids_of(v: VocabView) -> Seq<u32> {
    let s = ids_sorted(v.eos, v.eos.len());
    let s = with_token(v, s, "<|im_end|>"@);
    let s = with_token(v, s, "<|eot_id|>"@);
    let s = with_token(v, s, "<|end_of_text|>"@);
    let s = with_token(v, s, "<|endoftext|>"@);
    let s = with_token(v, s, "<end_of_turn>"@);
    let s = with_token(v, s, "<|end|>"@);
    let s = with_token(v, s, "<|return|>"@);
    with_token(v, s, "<|eom_id|>"@)
}

proof fn put_id_sorts(s: Seq<u32>, x: u32)
    requires
        ids_ascend(s),
    ensures
        ids_ascend(put_id(s, x)),
        forall|y: u32|
            #![trigger put_id(s, x).contains(y)]
            #![trigger s.contains(y)]
            put_id(s, x).contains(y) <==> s.contains(y) || y == x,
    decreases s.len(),
{
    let r = put_id(s, x);
    if s.len() == 0 {
        assert(r[0] == x);
    } else if s.last() == x {
        assert(s[s.len() - 1] == x);
    } else if s.last() < x {
        assert forall|y: u32| r.contains(y) <==> s.contains(y) || y == x by {
            if s.contains(y) {
                let k = choose|k: int| 0 <= k < s.len() && s[k] == y;
                assert(r[k] == y);
            }
            if y == x {
                assert(r[s.len() as int] == x);
            }
            if r.contains(y) {
                let k = choose|k: int| 0 <= k < r.len() && r[k] == y;
                if k < s.len() {
                    assert(s[k] == y);
                }
            }
        }
    } else {
        let d = s.drop_last();
        put_id_sorts(d, x);
        let q = put_id(d, x);
        assert forall|i: int| 0 <= i < q.len() implies (#[trigger] q[i]) < s.last() by {
            assert(q.contains(q[i]));
            if q[i] != x {
                let k = choose|k: int| 0 <= k < d.len() && d[k] == q[i];
                assert(s[k] == q[i]);
            }
        }
        assert forall|y: u32| r.contains(y) <==> s.contains(y) || y == x by {
            if s.contains(y) {
                let k = choose|k: int| 0 <= k < s.len() && s[k] == y;
                if k < d.len() {
                    assert(d[k] == y);
                    assert(q.contains(y));
                    let z = choose|z: int| 0 <= z < q.len() && q[z] == y;
                    assert(r[z] == y);
                } else {
                    assert(r[r.len() - 1] == y);
                }
            }
            if y == x {
                assert(q.contains(x));
                let z = choose|z: int| 0 <= z < q.len() && q[z] == x;
                assert(r[z] == x);
            }
            if r.contains(y) {
                let z = choose|z: int| 0 <= z < r.len() && r[z] == y;
                if z < q.len() {
                    assert(q[z] == y);
                    assert(q.contains(y));
                    if d.contains(y) {
                        let k = choose|k: int| 0 <= k < d.len() && d[k] == y;
                        assert(s[k] == y);
                    }
                } else {
                    assert(s[s.len() - 1] == y);
                }
            }
        }
    }
}

proof fn ids_sorted_holds(a: Seq<u32>, n: nat)
    requires
        n <= a.len(),
    ensures
        ids_ascend(ids_sorted(a, n)),
        forall|y: u32|
            #![trigger ids_sorted(a, n).contains(y)]
            #![trigger a.take(n as int).contains(y)]
            ids_sorted(a, n).contains(y) <==> a.take(n as int).contains(y),
    decreases n,
{
    if n > 0 {
        let p = (n - 1) as nat;
        ids_sorted_holds(a, p);
        put_id_sorts(ids_sorted(a, p), a[n - 1]);
        assert forall|y: u32|
            #![trigger a.take(n as int).contains(y)]
            #![trigger a.take(p as int).contains(y)]
            a.take(n as int).contains(y) <==> a.take(p as int).contains(y) || y == a[n - 1] by {
            if a.take(n as int).contains(y) {
                let k = choose|k: int| 0 <= k < n && a.take(n as int)[k] == y;
                if k < p {
                    assert(a.take(p as int)[k] == y);
                }
            }
            if a.take(p as int).contains(y) {
                let k = choose|k: int| 0 <= k < p && a.take(p as int)[k] == y;
                assert(a.take(n as int)[k] == y);
            }
            if y == a[n - 1] {
                assert(a.take(n as int)[n - 1] == y);
            }
        }
    }
}

proof fn with_token_sorts(v: VocabView, s: Seq<u32>, t: Seq<char>)
    requires
        ids_ascend(s),
    ensures
        ids_ascend(with_token(v, s, t)),
        forall|y: u32|
            #![trigger with_token(v, s, t).contains(y)]
            #![trigger s.contains(y)]
            with_token(v, s, t).contains(y) <==> s.contains(y) || v.find(t) == Some(y),
{
    match v.find(t) {
        Some(id) => put_id_sorts(s, id),
        None => {},
    }
}

/// The stop ids ascend, none of them twice, and hold every end token of the file.
pub proof fn stop_ids_ascend(v: VocabView)
    ensures
        ids_ascend(stop_ids_of(v)),
        forall|y: u32| #[trigger] v.eos.contains(y) ==> stop_ids_of(v).contains(y),
{
    ids_sorted_holds(v.eos, v.eos.len());
    assert(v.eos.take(v.eos.len() as int) =~= v.eos);
    let s0 = ids_sorted(v.eos, v.eos.len());
    with_token_sorts(v, s0, "<|im_end|>"@);
    let s1 = with_token(v, s0, "<|im_end|>"@);
    with_token_sorts(v, s1, "<|eot_id|>"@);
    let s2 = with_token(v, s1, "<|eot_id|>"@);
    with_token_sorts(v, s2, "<|end_of_text|>"@);
    let s3 = with_token(v, s2, "<|end_of_text|>"@);
    with_token_sorts(v, s3, "<|endoftext|>"@);
    let s4 = with_token(v, s3, "<|endoftext|>"@);
    with_token_sorts(v, s4, "<end_of_turn>"@);
    let s5 = with_token(v, s4, "<end_of_turn>"@);
    with_token_sorts(v, s5, "<|end|>"@);
    let s6 = with_token(v, s5, "<|end|>"@);
    with_token_sorts(v, s6, "<|return|>"@);
    let s7 = with_token(v, s6, "<|return|>"@);
    with_token_sorts(v, s7, "<|eom_id|>"@);
}

fn insert_id(s: &mut Vec<u32>, x: u32)
    ensures
        final(s)@ == put_id(old(s)@, x),
    decreases old(s)@.len(),
{
    let ghost before = s@;
    match s.pop() {
        None => {
            s.push(x);
            assert(s@ =~= seq![x]);
        },
        Some(last) => {
            assert(s@ =~= before.drop_last());
            if last == x {
                s.push(last);
                assert(s@ =~= before);
            } else if last < x {
                s.push(last);
                s.push(x);
                assert(s@ =~= before.push(x));
            } else {
                insert_id(s, x);
                s.push(last);
            }
        },
    }
}

fn insert_token(v: &Vocab, s: &mut Vec<u32>, t: &str)
    requires
        v.wf(),
    ensures
        final(s)@ == with_token(v@, old(s)@, t@),
{
    match v.id(t) {
        Some(id) => insert_id(s, id),
        None => {},
    }
}

fn find_stop_ids(v: &Vocab) -> (r: Vec<u32>)
    requires
        v.wf(),
    ensures
        r@ == stop_ids_of(v@),
{
    let mut s: Vec<u32> = Vec::new();
    let mut i: usize = 0;
    while i < v.eos.len()
        invariant
            i <= v.eos@.len(),
            s@ == ids_sorted(v.eos@, i as nat),
        decreases v.eos@.len() - i,
    {
        insert_id(&mut s, v.eos[i]);
        i = i + 1;
    }
    insert_token(v, &mut s, "<|im_end|>");
    insert_token(v, &mut s, "<|eot_id|>");
    insert_token(v, &mut s, "<|end_of_text|>");
    insert_token(v, &mut s, "<|endoftext|>");
    insert_token(v, &mut s, "<end_of_turn>");
    insert_token(v, &mut s, "<|end|>");
    insert_token(v, &mut s, "<|return|>");
    insert_token(v, &mut s, "<|eom_id|>");
    s
}

fn template_has(v: &Vocab, t: &str) -> (r: bool)
    ensures
        r == (v@.chat_template is Some && has_text(v@.chat_template->0, t@)),
{
    match &v.chat_template {
        Some(s) => contains_text(s.as_str(), t),
        None => false,
    }
}

/// The format that a template or, failing that, the vocabulary looks like.
pub fn detect_builtin(v: &Vocab) -> (r: Builtin)
    requires
        v.wf(),
    ensures
        r == builtin_of(v@),
{
    if template_has(v, "<|im_start|>") {
        Builtin::ChatMl
    } else if template_has(v, "<|start_header_id|>") {
        Builtin::Llama3
    } else if template_has(v, "<start_of_turn>") {
        Builtin::Gemma
    } else if template_has(v, "<|user|>") {
        Builtin::Phi3
    } else if template_has(v, "[INST]") {
        Builtin::Llama2
    } else if v.id("<|im_start|>").is_some() {
        Builtin::ChatMl
    } else if v.id("<|eot_id|>").is_some() {
        Builtin::Llama3
    } else if v.id("<start_of_turn>").is_some() {
        Builtin::Gemma
    } else if v.id("<|user|>").is_some() {
        Builtin::Phi3
    } else if v.id("[INST]").is_some() {
        Builtin::Llama2
    } else {
        Builtin::Plain
    }
}

fn message_value(m: &ChatMessage) -> (r: Value)
    ensures
        r@ == message_val(m@),
{
    let mut map: Vec<Entry> = Vec::new();
    assert(entries(map@) =~= Seq::<(Seq<char>, Val)>::empty());
    insert(&mut map, own("role"), Value::string(m.role.as_str()));
    insert(&mut map, own("content"), Value::string(m.content.as_str()));
    object(map)
}

/// The variables that a template gets.
pub fn context(
    messages: &Vec<ChatMessage>,
    add_gen: bool,
    bos: &str,
    eos: &str,
    enable_thinking: Option<bool>,
) -> (r: Value)
    ensures
        r@ == context_of(turns(messages@), add_gen, bos@, eos@, enable_thinking),
{
    let ghost want = Seq::new(
        messages@.len(),
        |i: int| message_val(turns(messages@)[i]),
    );
    let mut items: Vec<Value> = Vec::new();
    let mut i: usize = 0;
    while i < messages.len()
        invariant
            i <= messages@.len(),
            want == Seq::new(messages@.len(), |i: int| message_val(turns(messages@)[i])),
            vals(items@) =~= want.take(i as int),
        decreases messages@.len() - i,
    {
        let ghost before = vals(items@);
        let m = message_value(&messages[i]);
        items.push(m);
        i = i + 1;
        assert(vals(items@) =~= before.push(want[i - 1]));
    }
    assert(want.take(i as int) =~= want);
    let mut c: Vec<Entry> = Vec::new();
    assert(entries(c@) =~= Seq::<(Seq<char>, Val)>::empty());
    insert(&mut c, own("messages"), list(items));
    insert(&mut c, own("add_generation_prompt"), Value::Bool(add_gen));
    insert(&mut c, own("bos_token"), Value::string(bos));
    insert(&mut c, own("eos_token"), Value::string(eos));
    insert(&mut c, own("tools"), Value::Null);
    insert(&mut c, own("tools_in_user_message"), Value::Bool(false));
    insert(&mut c, own("add_vision_id"), Value::Bool(false));
    match enable_thinking {
        Some(t) => insert(&mut c, own("enable_thinking"), Value::Bool(t)),
        None => {},
    }
    object(c)
}

fn probe_context(bos: &str, eos: &str) -> (r: Value)
    ensures
        r@ == probe(bos@, eos@),
{
    let mut m: Vec<ChatMessage> = Vec::new();
    m.push(ChatMessage::new("user", "u"));
    m.push(ChatMessage::new("assistant", "a"));
    assert(turns(m@) =~= seq![("user"@, "u"@), ("assistant"@, "a"@)]);
    context(&m, true, bos, eos, None)
}

/// One turn in a built-in format.
fn write_turn(b: Builtin, role: &str, content: &str) -> (r: String)
    ensures
        r@ == turn(b, role@, content@),
{
    let mut out = match b {
        Builtin::ChatMl => cat3("<|im_start|>", role, "\n"),
        Builtin::Llama3 => cat3("<|start_header_id|>", role, "<|end_header_id|>\n\n"),
        Builtin::Phi3 => cat3("<|", role, "|>\n"),
        Builtin::Gemma => if same(role, "assistant") {
            own("<start_of_turn>model\n")
        } else {
            own("<start_of_turn>user\n")
        },
        Builtin::Llama2 => if same(role, "user") {
            own("[INST] ")
        } else {
            own(" ")
        },
        Builtin::Plain => if same(role, "user") {
            own("User: ")
        } else if same(role, "assistant") {
            own("Assistant: ")
        } else {
            own("System: ")
        },
    };
    out.append(content);
    match b {
        Builtin::ChatMl => out.append("<|im_end|>\n"),
        Builtin::Llama3 => out.append("<|eot_id|>"),
        Builtin::Phi3 => out.append("<|end|>\n"),
        Builtin::Gemma => out.append("<end_of_turn>\n"),
        Builtin::Llama2 => if same(role, "user") {
            out.append(" [/INST]")
        } else {
            out.append(" ")
        },
        Builtin::Plain => out.append("\n"),
    }
    out
}

/// A conversation in a built-in format.
pub fn render_builtin(b: Builtin, messages: &Vec<ChatMessage>, add_gen: bool) -> (out: String)
    ensures
        out@ == built_in(b, turns(messages@), add_gen),
{
    let ghost m = turns(messages@);
    let mut out = String::new();
    let mut held = String::new();
    let has_system = match b {
        Builtin::ChatMl | Builtin::Llama3 | Builtin::Phi3 => true,
        _ => false,
    };
    let ghost all = turns_from(b, m, 0, Seq::empty());
    assert(out@ + all =~= all);
    let mut i: usize = 0;
    while i < messages.len()
        invariant
            i <= messages@.len(),
            m == turns(messages@),
            has_system == has_system_role(b),
            all == out@ + turns_from(b, m, i as nat, held@),
        decreases messages@.len() - i,
    {
        assert(m[i as int] == messages@[i as int]@);
        let role = if same(messages[i].role.as_str(), "developer") {
            "system"
        } else {
            messages[i].role.as_str()
        };
        let content = messages[i].content.as_str();
        if same(role, "system") && !has_system {
            if !held.as_str().is_empty() {
                held.append("\n");
                held.append(content);
            } else {
                held = own(content);
            }
        } else if !held.as_str().is_empty() && !same(role, "system") {
            let ghost before = out@;
            let text = cat3(held.as_str(), "\n\n", content);
            let t = write_turn(b, role, text.as_str());
            out.append(t.as_str());
            held = String::new();
            assert(held@ =~= Seq::<char>::empty());
            assert(before + (t@ + turns_from(b, m, (i + 1) as nat, held@)) =~= out@ + turns_from(
                b,
                m,
                (i + 1) as nat,
                held@,
            ));
        } else {
            let ghost before = out@;
            let t = write_turn(b, role, content);
            out.append(t.as_str());
            assert(before + (t@ + turns_from(b, m, (i + 1) as nat, held@)) =~= out@ + turns_from(
                b,
                m,
                (i + 1) as nat,
                held@,
            ));
        }
        i = i + 1;
    }
    assert(out@ =~= all);
    if add_gen {
        out.append(
            match b {
                Builtin::ChatMl => "<|im_start|>assistant\n",
                Builtin::Llama3 => "<|start_header_id|>assistant<|end_header_id|>\n\n",
                Builtin::Gemma => "<start_of_turn>model\n",
                Builtin::Phi3 => "<|assistant|>\n",
                Builtin::Llama2 => "",
                Builtin::Plain => "Assistant:",
            },
        );
    } else {
        assert(out@ =~= out@ + Seq::<char>::empty());
    }
    out
}

#[derive(Debug)]
pub struct ChatTemplate {
    pub jinja: Option<Template>,
    /// Kept for diagnostics: why the built-in path is in use.
    pub jinja_error: Option<String>,
    pub builtin: Builtin,
    pub bos_token: String,
    pub eos_token: String,
    /// The template prepends BOS itself, so the tokenizer must not add a second one.
    pub template_adds_bos: bool,
    pub stop_ids: Vec<u32>,
}

/// The text of the token that starts a text.
pub open spec fn bos_text(v: VocabView) -> Seq<char> {
    match v.bos {
        Some(b) => v.text_at(b),
        None => Seq::empty(),
    }
}

/// The text of the first token that ends a text.
pub open spec fn eos_text(v: VocabView) -> Seq<char> {
    if v.eos.len() > 0 {
        v.text_at(v.eos[0])
    } else {
        Seq::empty()
    }
}

impl ChatTemplate {
    /// The stop ids ascend.
    pub open spec fn wf(self) -> bool {
        ids_ascend(self.stop_ids@)
    }

    /// Whether this is the template of a vocabulary: the file's own where it works, with the
    /// reason where it does not, the built-in one that fits, and the tokens that end a turn.
    pub open spec fn belongs_to(self, h: Host, v: VocabView) -> bool {
        &&& self.builtin == builtin_of(v)
        &&& self.bos_token@ == bos_text(v)
        &&& self.eos_token@ == eos_text(v)
        &&& self.stop_ids@ == stop_ids_of(v)
        &&& match own_template(h, v, bos_text(v), eos_text(v)) {
            Ok(n) => self.jinja is Some && nds(self.jinja->0.nodes@) == n && self.jinja_error is None,
            Err(e) => self.jinja is None && opt_text(self.jinja_error) == e,
        }
        &&& self.template_adds_bos == (self.jinja is Some && has_text(
            v.chat_template->0,
            "bos_token"@,
        ))
    }

    /// The template of a vocabulary. That it parses is not enough: it can still hit an
    /// unsupported filter on the first render, so it is rendered once, while there is still a
    /// chance to fall back.
    pub fn from_vocab<
        A: Fn(NumOp, u64, u64) -> u64,
        P: Fn(&str) -> Option<u64>,
        W: Fn(u64, bool) -> String,
    >(v: &Vocab, maths: &Maths<A, P, W>) -> (r: Self)
        requires
            v.wf(),
            maths.works(),
        ensures
            r.wf(),
            r.belongs_to(maths.host(), v@),
    {
        let bos_token = match v.bos {
            Some(b) => own(v.text(b)),
            None => String::new(),
        };
        let eos_token = if v.eos.len() > 0 {
            own(v.text(v.eos[0]))
        } else {
            String::new()
        };
        let mut jinja: Option<Template> = None;
        let mut jinja_error: Option<String> = None;
        match &v.chat_template {
            None => {},
            Some(src) => {
                if !trim(src.as_str()).as_str().is_empty() {
                    match Template::parse(src.as_str(), maths) {
                        Err(e) => {
                            jinja_error = Some(e);
                        },
                        Ok(t) => {
                            let ctx = probe_context(bos_token.as_str(), eos_token.as_str());
                            match t.render(&ctx, maths) {
                                Err(e) => {
                                    jinja_error = Some(e);
                                },
                                Ok(_) => {
                                    jinja = Some(t);
                                },
                            }
                        },
                    }
                }
            },
        }
        let template_adds_bos = jinja.is_some() && template_has(v, "bos_token");
        let stop_ids = find_stop_ids(v);
        proof {
            stop_ids_ascend(v@);
        }
        ChatTemplate {
            jinja,
            jinja_error,
            builtin: detect_builtin(v),
            bos_token,
            eos_token,
            template_adds_bos,
            stop_ids,
        }
    }

    pub fn uses_gguf_template(&self) -> (r: bool)
        ensures
            r == (self.jinja is Some),
    {
        self.jinja.is_some()
    }

    /// Whether an id ends a turn, by binary search.
    pub fn is_stop(&self, id: u32) -> (r: bool)
        requires
            self.wf(),
        ensures
            r == self.stop_ids@.contains(id),
    {
        let ghost s = self.stop_ids@;
        let mut lo: usize = 0;
        let mut hi: usize = self.stop_ids.len();
        while lo < hi
            invariant
                s == self.stop_ids@,
                ids_ascend(s),
                lo <= hi <= s.len(),
                forall|k: int| 0 <= k < lo ==> (#[trigger] s[k]) < id,
                forall|k: int| hi <= k < s.len() ==> id < #[trigger] s[k],
            decreases hi - lo,
        {
            let mid = lo + (hi - lo) / 2;
            let x = self.stop_ids[mid];
            if x == id {
                assert(s[mid as int] == id);
                return true;
            }
            if x < id {
                lo = mid + 1;
            } else {
                hi = mid;
            }
        }
        false
    }

    pub fn stop_ids(&self) -> (r: &[u32])
        ensures
            r@ == self.stop_ids@,
    {
        self.stop_ids.as_slice()
    }

    pub open spec fn rendering(
        self,
        h: Host,
        m: Seq<(Seq<char>, Seq<char>)>,
        add_gen: bool,
        thinking: Option<bool>,
    ) -> Seq<char> {
        let other = built_in(self.builtin, m, add_gen);
        match self.jinja {
            Some(t) => match rendered(
                h,
                nds(t.nodes@),
                context_of(m, add_gen, self.bos_token@, self.eos_token@, thinking),
            ) {
                Ok(out) => out,
                Err(_) => other,
            },
            None => other,
        }
    }

    pub fn render<
        A: Fn(NumOp, u64, u64) -> u64,
        P: Fn(&str) -> Option<u64>,
        W: Fn(u64, bool) -> String,
    >(
        &self,
        messages: &Vec<ChatMessage>,
        add_generation_prompt: bool,
        maths: &Maths<A, P, W>,
    ) -> (r: String)
        requires
            maths.works(),
        ensures
            r@ == self.rendering(maths.host(), turns(messages@), add_generation_prompt, None),
    {
        self.render_with(messages, add_generation_prompt, None, maths)
    }

    /// Renders, optionally pinning `enable_thinking`.
    ///
    /// `None` leaves the variable undefined, which is what the reasoning models' templates
    /// treat as their default.
    pub fn render_with<
        A: Fn(NumOp, u64, u64) -> u64,
        P: Fn(&str) -> Option<u64>,
        W: Fn(u64, bool) -> String,
    >(
        &self,
        messages: &Vec<ChatMessage>,
        add_generation_prompt: bool,
        enable_thinking: Option<bool>,
        maths: &Maths<A, P, W>,
    ) -> (r: String)
        requires
            maths.works(),
        ensures
            r@ == self.rendering(
                maths.host(),
                turns(messages@),
                add_generation_prompt,
                enable_thinking,
            ),
    {
        if let Some(t) = &self.jinja {
            let ctx = context(
                messages,
                add_generation_prompt,
                self.bos_token.as_str(),
                self.eos_token.as_str(),
                enable_thinking,
            );
            if let Ok(out) = t.render(&ctx, maths) {
                return out;
            }
        }
        render_builtin(self.builtin, messages, add_generation_prompt)
    }
}

} // verus!
