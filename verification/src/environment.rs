//! Lexical environments: a chain of scopes with parent links, supporting
//! shadowing lookup and bulk merge.
//!
//! The chain lives in an arena: `Environment` owns every frame, and a scope
//! is addressed by the index of its frame.  A parent link always points to a
//! frame of smaller index, so chains cannot form cycles and lookup walks
//! strictly downward.  A frame's bindings are an append-only association
//! list; the binding pushed last wins, so its mathematical content is a map.

use vstd::prelude::*;

use crate::object::{obj_wf, Object, ObjV};
use crate::runtime::{NativeId, Runtime};

verus! {

/// The mathematical content of one scope frame.
pub ghost struct FrameV {
    /// The bindings local to this frame.
    pub vars: Map<Seq<char>, ObjV>,
    /// The index of the enclosing scope's frame, if any.
    pub parent: Option<int>,
}

/// The mathematical content of the whole arena.
pub ghost struct EnvV {
    /// Every frame created so far, in creation order.
    pub frames: Seq<FrameV>,
    /// The attached registry of native functions.
    pub natives: Map<Seq<char>, NativeId>,
}

struct Frame {
    vars: Vec<(String, Object)>,
    parent: Option<usize>,
}

/// The arena of scope frames, plus the process-wide native registry attached
/// at creation.
pub struct Environment {
    frames: Vec<Frame>,
    runtime: Runtime,
}

/// The map an association list of bindings denotes: a later binding wins.
pub open spec fn vars_view(s: Seq<(String, Object)>) -> Map<Seq<char>, ObjV>
    decreases s,
{
    if s.len() == 0 {
        Map::empty()
    } else {
        vars_view(s.drop_last()).insert(s.last().0@, s.last().1@)
    }
}

impl View for Frame {
    type V = FrameV;

    closed spec fn view(&self) -> FrameV {
        FrameV {
            vars: vars_view(self.vars@),
            parent: match self.parent {
                Some(p) => Some(p as int),
                None => None,
            },
        }
    }
}

impl View for Environment {
    type V = EnvV;

    closed spec fn view(&self) -> EnvV {
        EnvV {
            frames: Seq::new(self.frames@.len(), |i: int| self.frames@[i]@),
            natives: self.runtime@,
        }
    }
}

/// Frame `i` is well formed: its parent comes earlier in the arena and every
/// value it binds addresses only existing frames.
pub open spec fn frame_wf(e: EnvV, i: int) -> bool {
    &&& (match e.frames[i].parent {
        Some(p) => 0 <= p < i,
        None => true,
    })
    &&& (forall|name: Seq<char>|
        e.frames[i].vars.contains_key(name) ==> obj_wf(
            #[trigger] e.frames[i].vars[name],
            e.frames.len() as int,
        ))
}

/// The arena is well formed: it has a root frame and every frame is well
/// formed.
pub open spec fn env_wf(e: EnvV) -> bool {
    &&& e.frames.len() > 0
    &&& forall|i: int| 0 <= i < e.frames.len() ==> frame_wf(e, i)
}


/// One arena evolved from another: the registry is unchanged, frames are
/// only ever added, and every existing frame keeps its parent and every
/// name it already bound (a binding's value may be overwritten, never
/// removed).
pub open spec fn env_evolves(e0: EnvV, e1: EnvV) -> bool {
    &&& e1.natives == e0.natives
    &&& e1.frames.len() >= e0.frames.len()
    &&& (forall|i: int|
        0 <= i < e0.frames.len() ==> (#[trigger] e1.frames[i]).parent == e0.frames[i].parent)
    &&& (forall|i: int, k: Seq<char>|
        0 <= i < e0.frames.len() && e0.frames[i].vars.contains_key(k)
            ==> (#[trigger] e1.frames[i].vars.contains_key(k)))
}


/// Shadowing lookup: the local frame first, then the parent chain.
pub open spec fn env_lookup(e: EnvV, i: int, name: Seq<char>) -> Option<ObjV>
    decreases i,
{
    if 0 <= i < e.frames.len() {
        if e.frames[i].vars.contains_key(name) {
            Some(e.frames[i].vars[name])
        } else {
            match e.frames[i].parent {
                Some(p) => if 0 <= p < i {
                    env_lookup(e, p, name)
                } else {
                    None
                },
                None => None,
            }
        }
    } else {
        None
    }
}

/// In a well-formed arena a lookup only ever finds well-formed values.
pub proof fn env_lookup_wf(e: EnvV, i: int, name: Seq<char>)
    requires
        env_wf(e),
    ensures
        match env_lookup(e, i, name) {
            Some(v) => obj_wf(v, e.frames.len() as int),
            None => true,
        },
    decreases i,
{
    if 0 <= i < e.frames.len() {
        assert(frame_wf(e, i));
        if !e.frames[i].vars.contains_key(name) {
            match e.frames[i].parent {
                Some(p) => {
                    if 0 <= p < i {
                        env_lookup_wf(e, p, name);
                    }
                },
                None => {},
            }
        }
    }
}

/// Scanning a binding list from its end finds the binding `vars_view` maps
/// the name to, if any.
proof fn vars_view_take(s: Seq<(String, Object)>, j: int, name: Seq<char>)
    requires
        0 < j <= s.len(),
    ensures
        s[j - 1].0@ == name ==> vars_view(s.take(j)).contains_key(name) && vars_view(s.take(j))[name]
            == s[j - 1].1@,
        s[j - 1].0@ != name ==> vars_view(s.take(j)).contains_key(name) == vars_view(
            s.take(j - 1),
        ).contains_key(name),
        s[j - 1].0@ != name && vars_view(s.take(j)).contains_key(name) ==> vars_view(s.take(j))[name]
            == vars_view(s.take(j - 1))[name],
{
    assert(s.take(j).drop_last() =~= s.take(j - 1));
    assert(s.take(j).last() == s[j - 1]);
}

/// The map of two binding lists in sequence: the later list wins.
proof fn vars_view_concat(a: Seq<(String, Object)>, b: Seq<(String, Object)>)
    ensures
        vars_view(a + b) == vars_view(a).union_prefer_right(vars_view(b)),
    decreases b.len(),
{
    if b.len() == 0 {
        assert(a + b =~= a);
        assert(vars_view(a).union_prefer_right(vars_view(b)) =~= vars_view(a));
    } else {
        vars_view_concat(a, b.drop_last());
        assert((a + b).drop_last() =~= a + b.drop_last());
        assert(vars_view(a).union_prefer_right(vars_view(b)) =~= vars_view(
            a + b.drop_last(),
        ).insert(b.last().0@, b.last().1@));
    }
}

/// Finds the value a binding list assigns to `key`, if any.
#[verifier::loop_isolation(false)]
fn frame_get(vars: &Vec<(String, Object)>, key: &String) -> (r: Option<Object>)
    ensures
        match r {
            Some(v) => vars_view(vars@).contains_key(key@) && vars_view(vars@)[key@] == v@,
            None => !vars_view(vars@).contains_key(key@),
        },
{
    let ghost s = vars@;
    let mut j: usize = vars.len();
    proof {
        assert(s.take(j as int) =~= s);
    }
    while j > 0
        invariant
            j <= s.len(),
            vars_view(s).contains_key(key@) == vars_view(s.take(j as int)).contains_key(key@),
            vars_view(s).contains_key(key@) ==> vars_view(s)[key@] == vars_view(
                s.take(j as int),
            )[key@],
        decreases j,
    {
        let entry = &vars[j - 1];
        proof {
            vars_view_take(s, j as int, key@);
        }
        if entry.0 == *key {
            return Some(entry.1.duplicate());
        }
        j = j - 1;
    }
    proof {
        assert(s.take(0) =~= Seq::<(String, Object)>::empty());
    }
    None
}

impl Environment {
    /// An arena holding one empty top-level frame, with the given native
    /// registry attached.
    pub fn new(runtime: Runtime) -> (r: Environment)
        ensures
            r@.frames =~= seq![FrameV { vars: Map::empty(), parent: None }],
            r@.natives == runtime@,
            env_wf(r@),
    {
        let mut frames: Vec<Frame> = Vec::new();
        frames.push(Frame { vars: Vec::new(), parent: None });
        let r = Environment { frames, runtime };
        proof {
            assert(r@.frames[0].vars =~= Map::<Seq<char>, ObjV>::empty());
        }
        r
    }

    /// How many frames the arena holds.
    pub fn frame_count(&self) -> (n: usize)
        ensures
            n == self@.frames.len(),
    {
        self.frames.len()
    }

    /// Opens a fresh empty frame whose parent is `parent`, returning its
    /// index.
    pub fn extend(&mut self, parent: usize) -> (r: usize)
        requires
            parent < old(self)@.frames.len(),
            env_wf(old(self)@),
        ensures
            r == old(self)@.frames.len(),
            final(self)@.frames =~= old(self)@.frames.push(
                FrameV { vars: Map::empty(), parent: Some(parent as int) },
            ),
            final(self)@.natives == old(self)@.natives,
            env_wf(final(self)@),
            env_evolves(old(self)@, final(self)@),
    {
        let r = self.frames.len();
        self.frames.push(Frame { vars: Vec::new(), parent: Some(parent) });
        proof {
            let e = old(self)@;
            let e2 = self@;
            assert(e2.frames[r as int].vars =~= Map::<Seq<char>, ObjV>::empty());
            assert(e2.frames =~= e.frames.push(
                FrameV { vars: Map::empty(), parent: Some(parent as int) },
            ));
            assert forall|i: int| 0 <= i < e2.frames.len() implies frame_wf(e2, i) by {
                if i < e.frames.len() {
                    assert(frame_wf(e, i));
                    assert forall|name: Seq<char>|
                        e2.frames[i].vars.contains_key(name) implies obj_wf(
                        #[trigger] e2.frames[i].vars[name],
                        e2.frames.len() as int,
                    ) by {
                        crate::object::obj_wf_mono(
                            e.frames[i].vars[name],
                            e.frames.len() as int,
                            e2.frames.len() as int,
                        );
                    }
                }
            }
        }
        r
    }

    /// Queries the attached native registry; the frame chain plays no part.
    pub fn get_runtime_fn(&self, name: &str) -> (r: Option<NativeId>)
        ensures
            match r {
                Some(id) => self@.natives.contains_key(name@) && self@.natives[name@] == id,
                None => !self@.natives.contains_key(name@),
            },
    {
        self.runtime.get_method(name)
    }

    /// Shadowing lookup starting at frame `frame`.
    pub fn get(&self, frame: usize, name: &str) -> (r: Option<Object>)
        requires
            env_wf(self@),
            frame < self@.frames.len(),
        ensures
            match r {
                Some(v) => env_lookup(self@, frame as int, name@) == Some(v@) && obj_wf(
                    v@,
                    self@.frames.len() as int,
                ),
                None => env_lookup(self@, frame as int, name@) is None,
            },
    {
        let key = String::from_str(name);
        let mut cur: usize = frame;
        #[verifier::loop_isolation(false)]
        loop
            invariant
                cur < self@.frames.len(),
                env_lookup(self@, frame as int, name@) == env_lookup(self@, cur as int, name@),
            decreases cur,
        {
            let fr = &self.frames[cur];
            match frame_get(&fr.vars, &key) {
                Some(v) => {
                    proof {
                        env_lookup_wf(self@, frame as int, name@);
                    }
                    return Some(v);
                },
                None => {
                    match fr.parent {
                        Some(p) => {
                            proof {
                                assert(frame_wf(self@, cur as int));
                            }
                            cur = p;
                        },
                        None => {
                            return None;
                        },
                    }
                },
            }
        }
    }

    /// Binds `name` to `value` in frame `frame` alone, shadowing any earlier
    /// local binding of the name.
    pub fn set(&mut self, frame: usize, name: &str, value: Object)
        requires
            env_wf(old(self)@),
            frame < old(self)@.frames.len(),
            obj_wf(value@, old(self)@.frames.len() as int),
        ensures
            final(self)@.frames =~= old(self)@.frames.update(
                frame as int,
                FrameV {
                    vars: old(self)@.frames[frame as int].vars.insert(name@, value@),
                    parent: old(self)@.frames[frame as int].parent,
                },
            ),
            final(self)@.natives == old(self)@.natives,
            env_wf(final(self)@),
            env_evolves(old(self)@, final(self)@),
    {
        let key = String::from_str(name);
        let fr = &mut self.frames[frame];
        let ghost oldvars = fr.vars@;
        fr.vars.push((key, value));
        proof {
            assert(fr.vars@.drop_last() =~= oldvars);
            let e = old(self)@;
            let e2 = self@;
            assert(e2.frames =~= e.frames.update(
                frame as int,
                FrameV {
                    vars: e.frames[frame as int].vars.insert(name@, value@),
                    parent: e.frames[frame as int].parent,
                },
            ));
            assert forall|i: int| 0 <= i < e2.frames.len() implies frame_wf(e2, i) by {
                assert(frame_wf(e, i));
                assert forall|nm: Seq<char>| e2.frames[i].vars.contains_key(nm) implies obj_wf(
                    #[trigger] e2.frames[i].vars[nm],
                    e2.frames.len() as int,
                ) by {
                    if i == frame as int && nm == name@ {
                    } else {
                        assert(e.frames[i].vars.contains_key(nm));
                    }
                }
            }
        }
    }

    /// Copies every binding local to frame `src` into frame `dst`,
    /// overwriting on a name collision.
    pub fn update(&mut self, dst: usize, src: usize)
        requires
            env_wf(old(self)@),
            dst < old(self)@.frames.len(),
            src < old(self)@.frames.len(),
        ensures
            final(self)@.frames =~= old(self)@.frames.update(
                dst as int,
                FrameV {
                    vars: old(self)@.frames[dst as int].vars.union_prefer_right(
                        old(self)@.frames[src as int].vars,
                    ),
                    parent: old(self)@.frames[dst as int].parent,
                },
            ),
            final(self)@.natives == old(self)@.natives,
            env_wf(final(self)@),
            env_evolves(old(self)@, final(self)@),
    {
        let mut copied: Vec<(String, Object)> = Vec::new();
        let srcfr = &self.frames[src];
        let mut i: usize = 0;
        #[verifier::loop_isolation(false)]
        while i < srcfr.vars.len()
            invariant
                i <= srcfr.vars@.len(),
                copied@.len() == i,
                forall|j: int|
                    0 <= j < i ==> (#[trigger] copied@[j]).0@ == srcfr.vars@[j].0@ && copied@[j].1@
                        == srcfr.vars@[j].1@,
            decreases srcfr.vars@.len() - i,
        {
            let entry = &srcfr.vars[i];
            copied.push((entry.0.clone(), entry.1.duplicate()));
            i = i + 1;
        }
        proof {
            vars_view_eq(copied@, srcfr.vars@);
            assert(vars_view(copied@) == self@.frames[src as int].vars);
        }
        let ghost e = old(self)@;
        let ghost copied_s = copied@;
        let ghost oldframes = self.frames@;
        let fr = &mut self.frames[dst];
        let ghost olddst = fr.vars@;
        let ghost oldparent = fr.parent;
        let mut k: usize = 0;
        let n = copied.len();
        #[verifier::loop_isolation(false)]
        while k < n
            invariant
                k <= copied_s.len(),
                n == copied_s.len(),
                copied@ =~= copied_s.skip(k as int),
                fr.vars@ =~= olddst + copied_s.take(k as int),
                fr.parent == oldparent,
            decreases n - k,
        {
            let pair = copied.remove(0);
            proof {
                assert(copied_s.skip(k as int)[0] == copied_s[k as int]);
                assert(copied_s.skip(k as int).remove(0) =~= copied_s.skip(k + 1));
            }
            fr.vars.push(pair);
            k = k + 1;
            proof {
                assert(copied_s.take(k as int).drop_last() =~= copied_s.take(k - 1));
                assert(fr.vars@ =~= olddst + copied_s.take(k as int));
            }
        }
        proof {
            assert(copied_s.take(n as int) =~= copied_s);
            assert(fr.vars@ =~= olddst + copied_s);
        }
        proof {
            vars_view_concat(olddst, copied_s);
            let e2 = self@;
            assert(self.frames@ =~= oldframes.update(dst as int, self.frames@[dst as int]));
            assert(self.frames@[dst as int].vars@ =~= olddst + copied_s);
            assert(self.frames@[dst as int].parent == oldparent);
            assert(e2.frames[dst as int].vars == vars_view(olddst).union_prefer_right(
                vars_view(copied_s),
            ));
            assert(vars_view(olddst) == e.frames[dst as int].vars);
            assert(vars_view(copied_s) == e.frames[src as int].vars);
            assert(e2.frames =~= e.frames.update(
                dst as int,
                FrameV {
                    vars: e.frames[dst as int].vars.union_prefer_right(e.frames[src as int].vars),
                    parent: e.frames[dst as int].parent,
                },
            ));
            assert forall|i: int| 0 <= i < e2.frames.len() implies frame_wf(e2, i) by {
                assert(frame_wf(e, i));
                if i == dst as int {
                    assert forall|nm: Seq<char>| e2.frames[i].vars.contains_key(nm) implies obj_wf(
                        #[trigger] e2.frames[i].vars[nm],
                        e2.frames.len() as int,
                    ) by {
                        if e.frames[src as int].vars.contains_key(nm) {
                            assert(frame_wf(e, src as int));
                        } else {
                            assert(e.frames[dst as int].vars.contains_key(nm));
                        }
                    }
                }
            }
        }
    }
}

/// Two binding lists equal pair for pair denote the same map.
proof fn vars_view_eq(a: Seq<(String, Object)>, b: Seq<(String, Object)>)
    requires
        a.len() == b.len(),
        forall|j: int| 0 <= j < a.len() ==> (#[trigger] a[j]).0@ == b[j].0@ && a[j].1@ == b[j].1@,
    ensures
        vars_view(a) == vars_view(b),
    decreases a.len(),
{
    if a.len() > 0 {
        vars_view_eq(a.drop_last(), b.drop_last());
        assert(vars_view(a) =~= vars_view(b));
    }
}

} // verus!
