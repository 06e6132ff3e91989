//! A conversation at the terminal.

use vstd::prelude::*;
use vstd::string::*;

use super::inspect::{builtin_label, builtin_name};
use crate::text::{cat2, cat4, own, same, trim, trimmed};
use crate::tokenizer::template::{turns, ChatMessage, ChatTemplate};

verus! {

/// What a line that was typed asks for.
#[derive(Debug)]
pub enum Entry {
    Nothing,
    /// Forget the conversation.
    Reset,
    Quit,
    Say(String),
}

/// The mathematical value of an [`Entry`].
pub enum EntryView {
    Nothing,
    Reset,
    Quit,
    Say(Seq<char>),
}

impl View for Entry {
    type V = EntryView;

    open spec fn view(&self) -> EntryView {
        match self {
            Entry::Nothing => EntryView::Nothing,
            Entry::Reset => EntryView::Reset,
            Entry::Quit => EntryView::Quit,
            Entry::Say(s) => EntryView::Say(s@),
        }
    }
}

/// What a line asks for, spaces at its ends aside.
pub open spec fn entry_of(line: Seq<char>) -> EntryView {
    let t = trimmed(line);
    if t.len() == 0 {
        EntryView::Nothing
    } else if t == "/reset"@ {
        EntryView::Reset
    } else if t == "/quit"@ || t == "/exit"@ {
        EntryView::Quit
    } else {
        EntryView::Say(t)
    }
}

impl Entry {
    /// Reads a line that was typed.
    pub fn read(line: &str) -> (r: Self)
        ensures
            r@ == entry_of(line@),
    {
        let t = trim(line);
        if t.as_str().unicode_len() == 0 {
            Entry::Nothing
        } else if same(t.as_str(), "/reset") {
            Entry::Reset
        } else if same(t.as_str(), "/quit") || same(t.as_str(), "/exit") {
            Entry::Quit
        } else {
            Entry::Say(t)
        }
    }
}

pub type Turn = (Seq<char>, Seq<char>);

/// What a conversation holds before anything is said.
pub open spec fn start_of(system: Option<String>) -> Seq<Turn> {
    match system {
        Some(s) => seq![("system"@, s@)],
        None => Seq::empty(),
    }
}

/// The turns of the system.
pub open spec fn system_turns(s: Seq<Turn>) -> Seq<Turn>
    decreases s.len(),
{
    if s.len() == 0 {
        Seq::empty()
    } else {
        let front = system_turns(s.drop_last());
        if s.last().0 == "system"@ {
            front.push(s.last())
        } else {
            front
        }
    }
}

/// What was said so far.
#[derive(Debug)]
pub struct History {
    pub messages: Vec<ChatMessage>,
}

impl View for History {
    type V = Seq<Turn>;

    open spec fn view(&self) -> Seq<Turn> {
        turns(self.messages@)
    }
}

impl History {
    pub fn new(system: &Option<String>) -> (r: Self)
        ensures
            r@ == start_of(*system),
    {
        let mut messages: Vec<ChatMessage> = Vec::new();
        match system {
            Some(s) => {
                messages.push(ChatMessage::new("system", s.as_str()));
            },
            None => {},
        }
        assert(turns(messages@) =~= start_of(*system));
        History { messages }
    }

    /// Adds a turn.
    pub fn say(&mut self, role: &str, content: &str)
        ensures
            final(self)@ == old(self)@.push((role@, content@)),
    {
        let ghost before = self@;
        self.messages.push(ChatMessage::new(role, content));
        assert(self@ =~= before.push((role@, content@)));
    }

    /// Forgets the conversation: only what the system said stays.
    pub fn clear(&mut self)
        ensures
            final(self)@ == system_turns(old(self)@),
    {
        let ghost all = self@;
        let mut kept: Vec<ChatMessage> = Vec::new();
        let mut i: usize = 0;
        assert(turns(kept@) =~= system_turns(all.take(0)));
        while i < self.messages.len()
            invariant
                all == self@,
                all.len() == self.messages@.len(),
                i <= all.len(),
                turns(kept@) == system_turns(all.take(i as int)),
            decreases all.len() - i,
        {
            let m = &self.messages[i];
            let ghost before = turns(kept@);
            assert(all.take(i + 1).drop_last() =~= all.take(i as int));
            assert(all.take(i + 1).last() == all[i as int]);
            if same(m.role.as_str(), "system") {
                kept.push(ChatMessage::new(m.role.as_str(), m.content.as_str()));
                assert(turns(kept@) =~= before.push(all[i as int]));
            }
            i = i + 1;
        }
        assert(all.take(i as int) =~= all);
        self.messages = kept;
    }
}

/// A conversation that starts with what the system says is cleared to its start.
pub proof fn clearing_leads_to_the_start(system: Option<String>, later: Seq<Turn>)
    requires
        forall|i: int| 0 <= i < later.len() ==> (#[trigger] later[i]).0 != "system"@,
    ensures
        system_turns(start_of(system) + later) == start_of(system),
    decreases later.len(),
{
    let all = start_of(system) + later;
    if later.len() == 0 {
        assert(all =~= start_of(system));
        if system is Some {
            assert(all.drop_last() =~= Seq::<Turn>::empty());
            assert(all.last().0 == "system"@);
            assert(system_turns(all.drop_last()) =~= Seq::<Turn>::empty());
            assert(system_turns(all) =~= start_of(system));
        }
    } else {
        clearing_leads_to_the_start(system, later.drop_last());
        assert(all.drop_last() =~= start_of(system) + later.drop_last());
        assert(all.last() == later.last());
    }
}

/// Which chat template a model is used with.
pub open spec fn template_note_of(t: ChatTemplate) -> Seq<char> {
    match t.jinja {
        Some(_) => "  template  from the model's own chat_template"@,
        None => match t.jinja_error {
            Some(e) => "  template  built-in "@ + builtin_label(t.builtin)
                + " (model template unusable: "@ + e@ + ")"@,
            None => "  template  built-in "@ + builtin_label(t.builtin),
        },
    }
}

/// Says which chat template a model is used with.
pub fn template_note(t: &ChatTemplate) -> (r: String)
    ensures
        r@ == template_note_of(*t),
{
    if t.uses_gguf_template() {
        return own("  template  from the model's own chat_template");
    }
    match &t.jinja_error {
        Some(e) => {
            let mut s = cat4(
                "  template  built-in ",
                builtin_name(t.builtin),
                " (model template unusable: ",
                e.as_str(),
            );
            s.append(")");
            s
        },
        None => cat2("  template  built-in ", builtin_name(t.builtin)),
    }
}

} // verus!
