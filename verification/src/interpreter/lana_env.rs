use vstd::prelude::*;

use crate::lana_expr::{LanaExpr, SpecExpr};
use crate::prelude::{prelude, spec_prelude};
use crate::text::str_content_eq;

verus! {

/// One scope frame: bindings in insertion order (a later entry for a name
/// shadows an earlier one) and the index of the enclosing frame.
pub struct Frame {
    pub entries: Vec<(String, LanaExpr)>,
    pub outer: Option<usize>,
}

/// The bindings of one frame as a map; the last entry for a name wins.
pub open spec fn entries_map(s: Seq<(String, LanaExpr)>) -> Map<Seq<char>, SpecExpr>
    decreases s.len(),
{
    if s.len() == 0 {
        Map::<Seq<char>, SpecExpr>::empty()
    } else {
        entries_map(s.drop_last()).insert(s.last().0@, s.last().1@)
    }
}

proof fn lemma_entries_map_found(s: Seq<(String, LanaExpr)>, idx: int, name: Seq<char>)
    requires
        0 <= idx < s.len(),
        s[idx].0@ == name,
        forall|l: int| idx < l < s.len() ==> (#[trigger] s[l].0@) != name,
    ensures
        entries_map(s).contains_key(name),
        entries_map(s)[name] == s[idx].1@,
    decreases s.len(),
{
    if idx < s.len() - 1 {
        lemma_entries_map_found(s.drop_last(), idx, name);
    }
}

proof fn lemma_entries_map_absent(s: Seq<(String, LanaExpr)>, name: Seq<char>)
    requires
        forall|l: int| 0 <= l < s.len() ==> (#[trigger] s[l].0@) != name,
    ensures
        !entries_map(s).contains_key(name),
    decreases s.len(),
{
    if s.len() > 0 {
        lemma_entries_map_absent(s.drop_last(), name);
    }
}

/// A binding looked up from the back of one frame: the latest entry for the
/// name, borrowed.
fn frame_get<'a>(entries: &'a Vec<(String, LanaExpr)>, name: &str) -> (r: Option<&'a LanaExpr>)
    ensures
        match r {
            Some(v) => entries_map(entries@).contains_key(name@) && entries_map(entries@)[name@]
                == v@,
            None => !entries_map(entries@).contains_key(name@),
        },
{
    let mut j: usize = entries.len();
    while j > 0
        invariant
            j <= entries@.len(),
            forall|l: int| j <= l < entries@.len() ==> (#[trigger] entries@[l].0@) != name@,
        decreases j,
    {
        if str_content_eq(entries[j - 1].0.as_str(), name) {
            proof {
                lemma_entries_map_found(entries@, j - 1, name@);
            }
            return Some(&entries[j - 1].1);
        }
        j = j - 1;
    }
    proof {
        lemma_entries_map_absent(entries@, name@);
    }
    None
}

/// The environment chain, as an arena of frames.  Frame 0 is the root that
/// the prelude fills; the last frame is the innermost currently active one;
/// every frame points to the enclosing frame it resolves names through.
pub struct LanaEnv {
    pub frames: Vec<Frame>,
}

impl LanaEnv {
    /// There is a root frame without an enclosing frame, and every enclosing
    /// link points to an earlier frame, so the chain is acyclic.
    pub open spec fn wf(self) -> bool {
        self.frames@.len() >= 1 && self.frames@[0].outer is None && forall|k: int|
            0 <= k < self.frames@.len() ==> ((#[trigger] self.frames@[k].outer) matches Some(o)
                ==> o < k)
    }

    /// The index of the innermost active frame.
    pub open spec fn active(self) -> int {
        self.frames@.len() - 1
    }

    pub open spec fn frame_map(self, k: int) -> Map<Seq<char>, SpecExpr> {
        entries_map(self.frames@[k].entries@)
    }

    /// The value a name resolves to, walking from frame `k` outward.
    pub open spec fn lookup_from(self, k: int, name: Seq<char>) -> Option<SpecExpr>
        decreases k,
    {
        if self.frame_map(k).contains_key(name) {
            Some(self.frame_map(k)[name])
        } else {
            match self.frames@[k].outer {
                Some(o) => if 0 <= o < k {
                    self.lookup_from(o as int, name)
                } else {
                    None
                },
                None => None,
            }
        }
    }

    /// The value a name resolves to from the innermost active frame.
    pub open spec fn lookup(self, name: Seq<char>) -> Option<SpecExpr> {
        self.lookup_from(self.active(), name)
    }

    /// The root environment, pre-populated with the prelude.
    pub fn default() -> (r: Self)
        ensures
            r.wf(),
            r.frames@.len() == 1,
            r.frame_map(0) == spec_prelude(),
    {
        let entries = prelude();
        let mut frames: Vec<Frame> = Vec::new();
        frames.push(Frame { entries, outer: None });
        LanaEnv { frames }
    }

    /// The value bound to `symbol`, resolved innermost-first through the
    /// chain of enclosing frames.
    pub fn get(&self, symbol: &str) -> (r: Option<LanaExpr>)
        requires
            self.wf(),
        ensures
            match r {
                Some(v) => self.lookup(symbol@) == Some(v@),
                None => self.lookup(symbol@) == None::<SpecExpr>,
            },
    {
        let mut k: usize = self.frames.len() - 1;
        loop
            invariant
                self.wf(),
                k < self.frames@.len(),
                self.lookup(symbol@) == self.lookup_from(k as int, symbol@),
            decreases k,
        {
            match frame_get(&self.frames[k].entries, symbol) {
                Some(v) => {
                    return Some(v.duplicate());
                }
                None => {
                    match self.frames[k].outer {
                        Some(o) => {
                            k = o;
                        }
                        None => {
                            return None;
                        }
                    }
                }
            }
        }
    }

    /// Bind `name` in the innermost active frame, shadowing any earlier
    /// binding there; enclosing frames are never touched.
    pub fn insert(&mut self, name: String, value: LanaExpr)
        requires
            old(self).wf(),
        ensures
            final(self).wf(),
            final(self).frames@.len() == old(self).frames@.len(),
            forall|k: int|
                0 <= k < old(self).frames@.len() ==> (#[trigger] final(self).frames@[k].outer)
                    == old(self).frames@[k].outer,
            forall|k: int|
                0 <= k < old(self).active() ==> (#[trigger] final(self).frame_map(k)) == old(
                    self,
                ).frame_map(k),
            final(self).frame_map(final(self).active()) == old(self).frame_map(
                old(self).active(),
            ).insert(name@, value@),
    {
        let ghost before = *self;
        let mut f = self.frames.pop().unwrap();
        f.entries.push((name, value));
        self.frames.push(f);
        proof {
            assert(self.frames@.len() == before.frames@.len());
            assert(forall|k: int|
                0 <= k < before.active() ==> (#[trigger] self.frames@[k]) == before.frames@[k]);
            let e = self.frames@[self.active()].entries@;
            assert(e.drop_last() =~= before.frames@[before.active()].entries@);
        }
    }

    /// A new innermost frame holding `entries`, whose enclosing frame is the
    /// frame that was active until now.
    pub fn push_frame(&mut self, entries: Vec<(String, LanaExpr)>)
        requires
            old(self).wf(),
        ensures
            final(self).wf(),
            final(self).frames@.len() == old(self).frames@.len() + 1,
            forall|k: int|
                0 <= k < old(self).frames@.len() ==> (#[trigger] final(self).frames@[k]) == old(
                    self,
                ).frames@[k],
            final(self).frames@[final(self).active()].outer == Some(
                (old(self).frames@.len() - 1) as usize,
            ),
            final(self).frame_map(final(self).active()) == entries_map(entries@),
    {
        let outer = self.frames.len() - 1;
        self.frames.push(Frame { entries, outer: Some(outer) });
    }

    /// Drop the innermost frame, returning to the enclosing one.
    pub fn pop_frame(&mut self)
        requires
            old(self).wf(),
            old(self).frames@.len() >= 2,
        ensures
            final(self).wf(),
            final(self).frames@.len() == old(self).frames@.len() - 1,
            forall|k: int|
                0 <= k < final(self).frames@.len() ==> (#[trigger] final(self).frames@[k]) == old(
                    self,
                ).frames@[k],
    {
        let _ = self.frames.pop();
        proof {
            assert(self.frames@ =~= old(self).frames@.drop_last());
        }
    }
}

/// A binding in the innermost active frame wins the innermost-first search:
/// the value a name was just bound to in the active frame is the value the
/// name resolves to, whatever the enclosing frames hold.  Together with the
/// binding clauses of `def` and `defn` this says that a definition is
/// immediately visible.
pub proof fn lemma_active_binding_resolves(env: LanaEnv, name: Seq<char>, val: SpecExpr)
    requires
        env.wf(),
        env.frame_map(env.active()).contains_key(name),
        env.frame_map(env.active())[name] == val,
    ensures
        env.lookup(name) == Some(val),
{
}

/// What any evaluation step leaves untouched: the number of frames, every
/// enclosing link, and the bindings of every frame but the innermost active
/// one.  Only the active frame can gain or change bindings.
pub open spec fn env_preserved(a: LanaEnv, b: LanaEnv) -> bool {
    b.frames@.len() == a.frames@.len() && (forall|k: int|
        0 <= k < a.frames@.len() ==> (#[trigger] b.frames@[k].outer) == a.frames@[k].outer) && (
    forall|k: int| 0 <= k < a.frames@.len() - 1 ==> (#[trigger] b.frame_map(k)) == a.frame_map(k))
}

} // verus!
