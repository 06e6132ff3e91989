//! When commands are recorded, submitted and waited for.

use vstd::prelude::*;

use super::vulkan::MAX_SETS;

verus! {

/// Where recording stands.
#[derive(Debug, Clone, Copy, PartialEq, Eq, Structural)]
pub struct Recorder {
    pub recording: bool,
    /// Whether there is submitted work to wait for. Waiting for work that was never submitted
    /// would block forever.
    pub pending: bool,
    /// Descriptor sets taken since the last wait.
    pub sets_used: u32,
}

/// What the device is to do.
#[derive(Debug, Clone, Copy, PartialEq, Eq, Structural)]
pub enum Action {
    Begin,
    Submit,
    /// Wait for what was submitted, then take all descriptor sets back.
    Wait,
}

/// Where recording stands once an action is carried out.
pub open spec fn after(r: Recorder, a: Action) -> Recorder {
    match a {
        Action::Begin => Recorder { recording: true, ..r },
        Action::Submit => Recorder { recording: false, pending: true, ..r },
        Action::Wait => Recorder { pending: false, sets_used: 0, ..r },
    }
}

/// Whether an action may be carried out.
pub open spec fn allowed(r: Recorder, a: Action) -> bool {
    match a {
        Action::Begin => !r.recording,
        Action::Submit => r.recording,
        Action::Wait => r.pending && !r.recording,
    }
}

/// Where recording stands once the first `n` actions are carried out.
pub open spec fn after_all(r: Recorder, a: Seq<Action>, n: nat) -> Recorder
    decreases n,
{
    if n == 0 || n > a.len() {
        r
    } else {
        after(after_all(r, a, (n - 1) as nat), a[n - 1])
    }
}

/// Whether every action may be carried out when its turn comes.
pub open spec fn all_allowed(r: Recorder, a: Seq<Action>) -> bool {
    forall|i: int|
        0 <= i < a.len() ==> allowed(after_all(r, a, i as nat), #[trigger] a[i])
}

pub open spec fn submit_actions(r: Recorder) -> Seq<Action> {
    if r.recording {
        seq![Action::Submit]
    } else {
        Seq::empty()
    }
}

pub open spec fn sync_actions(r: Recorder) -> Seq<Action> {
    if r.recording {
        seq![Action::Submit, Action::Wait]
    } else if r.pending {
        seq![Action::Wait]
    } else {
        Seq::empty()
    }
}

/// What comes before a dispatch: recording is on, and a descriptor set is free.
pub open spec fn dispatch_actions(r: Recorder) -> Seq<Action> {
    let begin = if r.recording {
        Seq::empty()
    } else {
        seq![Action::Begin]
    };
    if r.sets_used >= MAX_SETS {
        begin + seq![Action::Submit, Action::Wait, Action::Begin]
    } else {
        begin
    }
}

/// Nothing is waited for that was not submitted, nothing is submitted that was not recorded, and
/// recording is never begun twice.
pub proof fn actions_are_allowed(r: Recorder)
    ensures
        all_allowed(r, submit_actions(r)),
        all_allowed(r, sync_actions(r)),
        all_allowed(r, dispatch_actions(r)),
{
    reveal_with_fuel(after_all, 5);
    let d = dispatch_actions(r);
    assert forall|i: int| 0 <= i < d.len() implies allowed(
        after_all(r, d, i as nat),
        #[trigger] d[i],
    ) by {
        if r.sets_used >= MAX_SETS {
            if r.recording {
                assert(d =~= seq![Action::Submit, Action::Wait, Action::Begin]);
                assert(i == 0 || i == 1 || i == 2);
            } else {
                assert(d =~= seq![Action::Begin, Action::Submit, Action::Wait, Action::Begin]);
                assert(i == 0 || i == 1 || i == 2 || i == 3);
            }
        }
    }
    let s = sync_actions(r);
    assert forall|i: int| 0 <= i < s.len() implies allowed(
        after_all(r, s, i as nat),
        #[trigger] s[i],
    ) by {
        assert(i == 0 || i == 1);
    }
}

impl Recorder {
    pub fn new() -> (r: Self)
        ensures
            r == (Recorder { recording: false, pending: false, sets_used: 0 }),
    {
        Recorder { recording: false, pending: false, sets_used: 0 }
    }

    fn act(&mut self, out: &mut Vec<Action>, a: Action)
        ensures
            *final(self) == after(*old(self), a),
            final(out)@ == old(out)@.push(a),
    {
        match a {
            Action::Begin => {
                self.recording = true;
            },
            Action::Submit => {
                self.recording = false;
                self.pending = true;
            },
            Action::Wait => {
                self.pending = false;
                self.sets_used = 0;
            },
        }
        out.push(a);
    }

    /// Starts recording where it is not on; for what is not dispatched.
    pub fn begin(&mut self) -> (r: Vec<Action>)
        ensures
            r@ == if old(self).recording {
                Seq::empty()
            } else {
                seq![Action::Begin]
            },
            *final(self) == (Recorder { recording: true, ..*old(self) }),
    {
        let mut out: Vec<Action> = Vec::new();
        if !self.recording {
            self.act(&mut out, Action::Begin);
        }
        assert(out@ =~= if old(self).recording {
            Seq::empty()
        } else {
            seq![Action::Begin]
        });
        out
    }

    pub fn submit(&mut self) -> (r: Vec<Action>)
        ensures
            r@ == submit_actions(*old(self)),
            *final(self) == after_all(*old(self), r@, r@.len()),
            !final(self).recording,
    {
        let ghost s = *self;
        let mut out: Vec<Action> = Vec::new();
        if self.recording {
            self.act(&mut out, Action::Submit);
        }
        proof {
            reveal_with_fuel(after_all, 3);
            assert(out@ =~= submit_actions(s));
        }
        out
    }

    /// Submits what is recorded and waits for all that was submitted.
    pub fn sync(&mut self) -> (r: Vec<Action>)
        ensures
            r@ == sync_actions(*old(self)),
            *final(self) == after_all(*old(self), r@, r@.len()),
            !final(self).recording,
            !final(self).pending,
    {
        let ghost s = *self;
        let mut out: Vec<Action> = Vec::new();
        if self.recording {
            self.act(&mut out, Action::Submit);
        }
        if self.pending {
            self.act(&mut out, Action::Wait);
        }
        proof {
            reveal_with_fuel(after_all, 4);
            assert(out@ =~= sync_actions(s));
        }
        out
    }

    /// Makes room for a dispatch and takes a descriptor set for it. The pool of sets is of a
    /// fixed size; flushing is cheaper than growing it.
    pub fn dispatch(&mut self) -> (r: Vec<Action>)
        ensures
            r@ == dispatch_actions(*old(self)),
            ({
                let s = after_all(*old(self), r@, r@.len());
                *final(self) == (Recorder { sets_used: (s.sets_used + 1) as u32, ..s })
            }),
            final(self).recording,
            final(self).sets_used <= MAX_SETS,
    {
        let ghost s = *self;
        let mut out: Vec<Action> = Vec::new();
        if !self.recording {
            self.act(&mut out, Action::Begin);
        }
        if self.sets_used >= MAX_SETS {
            self.act(&mut out, Action::Submit);
            self.act(&mut out, Action::Wait);
            self.act(&mut out, Action::Begin);
        }
        proof {
            reveal_with_fuel(after_all, 6);
            assert(out@ =~= dispatch_actions(s));
        }
        self.sets_used = self.sets_used + 1;
        out
    }
}

} // verus!
