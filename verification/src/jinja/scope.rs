//! The variables of a template.

use vstd::prelude::*;
use vstd::string::*;

use super::value::{
    copy_map, entries, find_key, insert, iterated, keys_ascend, map_view, nth, nth_or_null, object, put_key,
    put_key_then_lookup,
    vals, Entry, Val, Value,
};
use crate::dict::lookup;
use crate::text::{
    chars_of, index_from_is_first, index_of, own, position_from, range_of, string_of, texts, trim,
    trim_chars, trimmed,
};

verus! {

/// The frames of a scope, innermost last, each a map sorted by name.
pub type Frames = Seq<Seq<(Seq<char>, Val)>>;

/// The innermost of the first `n` frames that defines `k`.
pub open spec fn holder(s: Frames, k: Seq<char>, n: nat) -> Option<nat>
    decreases n,
{
    if n == 0 || n > s.len() {
        None
    } else if lookup(s[n - 1], k) is Some {
        Some((n - 1) as nat)
    } else {
        holder(s, k, (n - 1) as nat)
    }
}

/// What `k` stands for.
pub open spec fn get_in(s: Frames, k: Seq<char>) -> Option<Val> {
    match holder(s, k, s.len()) {
        Some(i) => lookup(s[i as int], k),
        None => None,
    }
}

pub open spec fn put_at(s: Frames, i: int, k: Seq<char>, v: Val) -> Frames {
    s.update(i, put_key(s[i], k, v))
}

/// Assignment writes to the frame that already defines the name, so that a `{% set %}` inside
/// a loop updates the outer variable.
pub open spec fn set_in(s: Frames, k: Seq<char>, v: Val) -> Frames {
    match holder(s, k, s.len()) {
        Some(i) => put_at(s, i as int, k, v),
        None => put_at(s, s.len() - 1, k, v),
    }
}

pub open spec fn declare_in(s: Frames, k: Seq<char>, v: Val) -> Frames {
    put_at(s, s.len() - 1, k, v)
}

/// `{% set ns.field = x %}` changes a field of a map; any other target names a variable.
pub open spec fn assign_in(s: Frames, target: Seq<char>, v: Val) -> Frames {
    match index_of(target, seq!['.']) {
        Some(i) => {
            let obj = trimmed(target.take(i as int));
            let field = trimmed(target.skip(i as int + 1));
            let current = match get_in(s, obj) {
                Some(Val::Object(m)) => m,
                _ => Seq::empty(),
            };
            set_in(s, obj, Val::Object(put_key(current, field, v)))
        },
        None => set_in(s, trimmed(target), v),
    }
}

/// The first `n` targets assigned from `items`, one each.
pub open spec fn assign_each(s: Frames, names: Seq<Seq<char>>, items: Seq<Val>, n: nat) -> Frames
    decreases n,
{
    if n == 0 || n > names.len() {
        s
    } else {
        assign_in(
            assign_each(s, names, items, (n - 1) as nat),
            names[n - 1],
            nth(items, n - 1),
        )
    }
}

pub open spec fn assign_targets(s: Frames, names: Seq<Seq<char>>, v: Val) -> Frames {
    if names.len() == 1 {
        assign_in(s, names[0], v)
    } else {
        assign_each(s, names, iterated(v), names.len())
    }
}

/// The first `n` names declared from `items`, one each.
pub open spec fn declare_each(s: Frames, names: Seq<Seq<char>>, items: Seq<Val>, n: nat) -> Frames
    decreases n,
{
    if n == 0 || n > names.len() {
        s
    } else {
        declare_in(
            declare_each(s, names, items, (n - 1) as nat),
            names[n - 1],
            nth(items, n - 1),
        )
    }
}

pub open spec fn bind_in(s: Frames, names: Seq<Seq<char>>, item: Val) -> Frames {
    if names.len() == 1 {
        declare_in(s, names[0], item)
    } else {
        declare_each(s, names, iterated(item), names.len())
    }
}

/// A variable that has just been assigned stands for what it was given.
pub proof fn set_then_get(s: Frames, k: Seq<char>, v: Val)
    requires
        s.len() > 0,
        forall|i: int| 0 <= i < s.len() ==> keys_ascend(#[trigger] s[i]),
    ensures
        get_in(set_in(s, k, v), k) == Some(v),
{
    let i = match holder(s, k, s.len()) {
        Some(i) => i as int,
        None => s.len() - 1,
    };
    holder_bound(s, k, s.len());
    put_key_then_lookup(s[i], k, v);
    let t = set_in(s, k, v);
    assert(lookup(t[i], k) == Some(v));
    holder_skips(s, t, k, i, s.len());
}

proof fn holder_bound(s: Frames, k: Seq<char>, n: nat)
    requires
        n <= s.len(),
    ensures
        holder(s, k, n) matches Some(i) ==> i < n && lookup(s[i as int], k) is Some,
    decreases n,
{
    if n > 0 && !(lookup(s[n - 1], k) is Some) {
        holder_bound(s, k, (n - 1) as nat);
    }
}

proof fn holder_skips(s: Frames, t: Frames, k: Seq<char>, i: int, n: nat)
    requires
        s.len() == t.len(),
        0 <= i < n <= s.len(),
        holder(s, k, n) == Some(i as nat) || (holder(s, k, n) is None && i == s.len() - 1),
        lookup(t[i], k) is Some,
        forall|j: int| 0 <= j < s.len() && j != i ==> t[j] == s[j],
    ensures
        holder(t, k, n) == Some(i as nat),
    decreases n,
{
    if n - 1 != i {
        assert(t[n - 1] == s[n - 1]);
        holder_skips(s, t, k, i, (n - 1) as nat);
    }
}

/// The variables of a template.
#[derive(Debug)]
pub struct Scope {
    pub frames: Vec<Vec<Entry>>,
}

impl View for Scope {
    type V = Frames;

    open spec fn view(&self) -> Frames {
        Seq::new(self.frames@.len(), |i: int| entries(self.frames@[i]@))
    }
}

impl Scope {
    /// There is always a frame to declare variables in.
    pub open spec fn wf(self) -> bool {
        self.frames@.len() > 0
    }

    /// The scope that holds the entries of `ctx`, where it is a map.
    pub fn new(ctx: &Value) -> (r: Scope)
        ensures
            r.wf(),
            r@ == seq![
                match ctx@ {
                    Val::Object(m) => m,
                    _ => Seq::empty(),
                },
            ],
    {
        let root = match ctx {
            Value::Object(m) => {
                proof {
                    map_view(*m);
                }
                copy_map(m)
            },
            _ => Vec::new(),
        };
        let ghost g = entries(root@);
        assert(!(ctx@ is Object) ==> g =~= Seq::empty());
        let mut frames: Vec<Vec<Entry>> = Vec::new();
        frames.push(root);
        let r = Scope { frames };
        assert(r@ =~= seq![g]);
        r
    }

    /// The frame that defines `k`.
    fn frame_of(&self, k: &str) -> (r: Option<usize>)
        ensures
            match holder(self@, k@, self@.len()) {
                Some(i) => r is Some && r->0 == i && i < self.frames@.len(),
                None => r is None,
            },
    {
        let mut n: usize = self.frames.len();
        while n > 0
            invariant
                n <= self.frames@.len(),
                holder(self@, k@, self@.len()) == holder(self@, k@, n as nat),
            decreases n,
        {
            if find_key(&self.frames[n - 1], k).is_some() {
                return Some(n - 1);
            }
            n = n - 1;
        }
        None
    }

    pub fn get(&self, name: &str) -> (r: Option<&Value>)
        ensures
            match get_in(self@, name@) {
                Some(v) => r is Some && r->0@ == v,
                None => r is None,
            },
    {
        match self.frame_of(name) {
            Some(i) => match find_key(&self.frames[i], name) {
                Some(j) => Some(&self.frames[i][j].value),
                None => None,
            },
            None => None,
        }
    }

    fn put(&mut self, i: usize, name: &str, v: Value)
        requires
            i < old(self).frames@.len(),
        ensures
            final(self)@ == put_at(old(self)@, i as int, name@, v@),
            final(self).frames@.len() == old(self).frames@.len(),
    {
        let ghost before = self@;
        insert(&mut self.frames[i], own(name), v);
        assert(self@ =~= put_at(before, i as int, name@, v@));
    }

    pub fn set(&mut self, name: &str, v: Value)
        requires
            old(self).wf(),
        ensures
            final(self)@ == set_in(old(self)@, name@, v@),
            final(self).frames@.len() == old(self).frames@.len(),
    {
        match self.frame_of(name) {
            Some(i) => self.put(i, name, v),
            None => {
                let n = self.frames.len();
                self.put(n - 1, name, v)
            },
        }
    }

    pub fn declare(&mut self, name: &str, v: Value)
        requires
            old(self).wf(),
        ensures
            final(self)@ == declare_in(old(self)@, name@, v@),
            final(self).frames@.len() == old(self).frames@.len(),
    {
        let n = self.frames.len();
        self.put(n - 1, name, v)
    }

    pub fn push(&mut self)
        ensures
            final(self)@ == old(self)@.push(Seq::empty()),
            final(self).frames@.len() == old(self).frames@.len() + 1,
    {
        let ghost before = self@;
        let none: Vec<Entry> = Vec::new();
        assert(entries(none@) =~= Seq::empty());
        self.frames.push(none);
        assert(self@ =~= before.push(Seq::empty()));
    }

    pub fn pop(&mut self)
        requires
            old(self).frames@.len() > 0,
        ensures
            final(self)@ == old(self)@.drop_last(),
            final(self).frames@.len() == old(self).frames@.len() - 1,
    {
        let ghost before = self@;
        self.frames.pop();
        assert(self@ =~= before.drop_last());
    }

    pub fn assign(&mut self, target: &str, v: Value)
        requires
            old(self).wf(),
        ensures
            final(self)@ == assign_in(old(self)@, target@, v@),
            final(self).frames@.len() == old(self).frames@.len(),
    {
        let c = chars_of(target);
        let mut dot: Vec<char> = Vec::new();
        dot.push('.');
        assert(dot@ =~= seq!['.']);
        match position_from(c.as_slice(), dot.as_slice(), 0) {
            Some(i) => {
                proof {
                    index_from_is_first(target@, seq!['.'], 0);
                }
                let n = c.len();
                let head = range_of(c.as_slice(), 0, i);
                assert(head@ =~= target@.take(i as int));
                let tail = range_of(c.as_slice(), i + 1, n);
                assert(tail@ =~= target@.skip(i + 1));
                let obj = string_of(trim_chars(head.as_slice()).as_slice());
                let field = string_of(trim_chars(tail.as_slice()).as_slice());
                let mut current = match self.get(obj.as_str()) {
                    Some(Value::Object(m)) => {
                        proof {
                            map_view(*m);
                        }
                        copy_map(m)
                    },
                    _ => Vec::new(),
                };
                assert(!(get_in(self@, obj@) matches Some(Val::Object(_))) ==> entries(current@)
                    =~= Seq::empty());
                insert(&mut current, field, v);
                let o = object(current);
                self.set(obj.as_str(), o);
            },
            None => {
                let t = trim(target);
                self.set(t.as_str(), v);
            },
        }
    }

    /// Assigns a value to targets: whole to a single one, part by part to several.
    pub fn assign_to(&mut self, names: &Vec<String>, v: Value)
        requires
            old(self).wf(),
        ensures
            final(self)@ == assign_targets(old(self)@, texts(names@), v@),
            final(self).frames@.len() == old(self).frames@.len(),
    {
        if names.len() == 1 {
            self.assign(names[0].as_str(), v);
            return ;
        }
        let items = v.iterate();
        let ghost start = self@;
        let mut i: usize = 0;
        while i < names.len()
            invariant
                i <= names@.len(),
                self.wf(),
                self.frames@.len() == old(self).frames@.len(),
                self@ == assign_each(start, texts(names@), vals(items@), i as nat),
            decreases names@.len() - i,
        {
            let x = nth_or_null(items.as_slice(), i);
            self.assign(names[i].as_str(), x);
            i = i + 1;
        }
    }

    /// Declares the variables of a loop for one item.
    pub fn bind_loop_vars(&mut self, names: &Vec<String>, item: &Value)
        requires
            old(self).wf(),
        ensures
            final(self)@ == bind_in(old(self)@, texts(names@), item@),
            final(self).frames@.len() == old(self).frames@.len(),
    {
        if names.len() == 1 {
            self.declare(names[0].as_str(), item.copy());
            return ;
        }
        let items = item.iterate();
        let ghost start = self@;
        let mut i: usize = 0;
        while i < names.len()
            invariant
                i <= names@.len(),
                self.wf(),
                self.frames@.len() == old(self).frames@.len(),
                self@ == declare_each(start, texts(names@), vals(items@), i as nat),
            decreases names@.len() - i,
        {
            let x = nth_or_null(items.as_slice(), i);
            self.declare(names[i].as_str(), x);
            i = i + 1;
        }
    }
}

} // verus!
