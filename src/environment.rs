//! Variable scopes: a chain of frames, innermost last.
use vstd::prelude::*;

use crate::scanner::{Literal, Value};

verus! {

/// The bindings of one frame; a later binding of a name hides an earlier one.
pub open spec fn frame_view(vars: Seq<(String, Literal)>) -> Map<Seq<char>, Value>
    decreases vars.len(),
{
    if vars.len() == 0 {
        Map::empty()
    } else {
        frame_view(vars.drop_last()).insert(vars.last().0@, vars.last().1@)
    }
}

/// The value of `name` in the innermost frame that binds it.
pub open spec fn scope_get(frames: Seq<Map<Seq<char>, Value>>, name: Seq<char>) -> Option<Value>
    decreases frames.len(),
{
    if frames.len() == 0 {
        None
    } else if frames.last().contains_key(name) {
        Some(frames.last()[name])
    } else {
        scope_get(frames.drop_last(), name)
    }
}

/// The frames after `name` is rebound to `v` in the innermost frame that
/// binds it; `None` when no frame does.
pub open spec fn scope_assign(frames: Seq<Map<Seq<char>, Value>>, name: Seq<char>, v: Value) -> Option<
    Seq<Map<Seq<char>, Value>>,
>
    decreases frames.len(),
{
    if frames.len() == 0 {
        None
    } else if frames.last().contains_key(name) {
        Some(frames.drop_last().push(frames.last().insert(name, v)))
    } else {
        match scope_assign(frames.drop_last(), name, v) {
            Some(f) => Some(f.push(frames.last())),
            None => None,
        }
    }
}

/// The frames after `name` is bound to `v` in the innermost frame.
pub open spec fn scope_define(frames: Seq<Map<Seq<char>, Value>>, name: Seq<char>, v: Value) -> Seq<
    Map<Seq<char>, Value>,
> {
    frames.drop_last().push(frames.last().insert(name, v))
}

proof fn lemma_frame_absent(vars: Seq<(String, Literal)>, k: Seq<char>)
    requires
        forall|j: int| 0 <= j < vars.len() ==> (#[trigger] vars[j]).0@ != k,
    ensures
        !frame_view(vars).contains_key(k),
    decreases vars.len(),
{
    if vars.len() > 0 {
        lemma_frame_absent(vars.drop_last(), k);
    }
}

proof fn lemma_frame_last(vars: Seq<(String, Literal)>, j: int)
    requires
        0 <= j < vars.len(),
        forall|i: int| j < i < vars.len() ==> (#[trigger] vars[i]).0@ != vars[j].0@,
    ensures
        frame_view(vars).contains_key(vars[j].0@),
        frame_view(vars)[vars[j].0@] == vars[j].1@,
    decreases vars.len(),
{
    if j < vars.len() - 1 {
        lemma_frame_last(vars.drop_last(), j);
    }
}

proof fn lemma_frame_update(vars: Seq<(String, Literal)>, j: int, entry: (String, Literal))
    requires
        0 <= j < vars.len(),
        entry.0@ == vars[j].0@,
        forall|i: int| j < i < vars.len() ==> (#[trigger] vars[i]).0@ != vars[j].0@,
    ensures
        frame_view(vars.update(j, entry)) == frame_view(vars).insert(entry.0@, entry.1@),
    decreases vars.len(),
{
    let u = vars.update(j, entry);
    if j == vars.len() - 1 {
        assert(u.drop_last() =~= vars.drop_last());
        assert(frame_view(u) =~= frame_view(vars).insert(entry.0@, entry.1@));
    } else {
        assert(u.drop_last() =~= vars.drop_last().update(j, entry));
        lemma_frame_update(vars.drop_last(), j, entry);
        assert(frame_view(u) =~= frame_view(vars).insert(entry.0@, entry.1@));
    }
}

/// Where `name` is bound in a frame: the last position that binds it.
fn find_in_frame(vars: &Vec<(String, Literal)>, name: &String) -> (r: Option<usize>)
    ensures
        match r {
            Some(j) => {
                &&& j < vars@.len()
                &&& vars@[j as int].0@ == name@
                &&& frame_view(vars@).contains_key(name@)
                &&& frame_view(vars@)[name@] == vars@[j as int].1@
                &&& forall|i: int| j < i < vars@.len() ==> (#[trigger] vars@[i]).0@ != name@
            },
            None => !frame_view(vars@).contains_key(name@),
        },
{
    let mut j = vars.len();
    while j > 0
        invariant
            j <= vars@.len(),
            forall|i: int| j <= i < vars@.len() ==> (#[trigger] vars@[i]).0@ != name@,
        decreases j,
    {
        if vars[j - 1].0 == *name {
            proof {
                lemma_frame_last(vars@, j - 1);
            }
            return Some(j - 1);
        }
        j = j - 1;
    }
    proof {
        lemma_frame_absent(vars@, name@);
    }
    None
}

/// Binds `name` to `value` in a frame, in place of its binding there if any.
fn bind_in_frame(vars: &mut Vec<(String, Literal)>, name: String, value: Literal)
    ensures
        frame_view(final(vars)@) == frame_view(old(vars)@).insert(name@, value@),
{
    match find_in_frame(vars, &name) {
        Some(j) => {
            proof {
                lemma_frame_update(vars@, j as int, (name, value));
            }
            vars.set(j, (name, value));
        },
        None => {
            vars.push((name, value));
            proof {
                assert(vars@.drop_last() =~= old(vars)@);
            }
        },
    }
}

/// Variable bindings in nested scopes. There is always at least one frame,
/// the outermost one.
pub struct Environment {
    frames: Vec<Vec<(String, Literal)>>,
}

impl View for Environment {
    type V = Seq<Map<Seq<char>, Value>>;

    closed spec fn view(&self) -> Seq<Map<Seq<char>, Value>> {
        Seq::new(self.frames@.len(), |i: int| frame_view(self.frames@[i]@))
    }
}

impl Environment {
    pub open spec fn wf(&self) -> bool {
        self@.len() > 0
    }

    /// An environment with one empty frame.
    pub fn new() -> (r: Self)
        ensures
            r.wf(),
            r@ == seq![Map::<Seq<char>, Value>::empty()],
    {
        let mut frames: Vec<Vec<(String, Literal)>> = Vec::new();
        frames.push(Vec::new());
        let r = Environment { frames };
        proof {
            assert(r@ =~= seq![Map::<Seq<char>, Value>::empty()]);
        }
        r
    }

    /// A new empty frame inside `environment`, or an environment with one
    /// empty frame where there is none to enclose it.
    pub fn new_with_enclosing(environment: Option<Box<Environment>>) -> (r: Self)
        requires
            environment matches Some(e) ==> e.wf(),
        ensures
            r.wf(),
            r@ == match environment {
                Some(e) => e@.push(Map::empty()),
                None => seq![Map::<Seq<char>, Value>::empty()],
            },
    {
        match environment {
            Some(e) => {
                let mut r = *e;
                r.push_frame();
                r
            },
            None => Environment::new(),
        }
    }

    /// Enters a new, empty, innermost frame.
    pub fn push_frame(&mut self)
        requires
            old(self).wf(),
        ensures
            final(self).wf(),
            final(self)@ == old(self)@.push(Map::empty()),
    {
        self.frames.push(Vec::new());
        proof {
            assert(self@ =~= old(self)@.push(Map::empty()));
        }
    }

    /// Leaves the innermost frame, unless it is the only one.
    pub fn pop_frame(&mut self)
        requires
            old(self).wf(),
        ensures
            final(self).wf(),
            final(self)@ == if old(self)@.len() > 1 {
                old(self)@.drop_last()
            } else {
                old(self)@
            },
    {
        if self.frames.len() > 1 {
            self.frames.pop();
            proof {
                assert(self@ =~= old(self)@.drop_last());
            }
        }
    }

    /// The value of `variable_name` in the innermost frame that binds it.
    pub fn get(&self, variable_name: &str) -> (r: Option<&Literal>)
        ensures
            match r {
                Some(v) => scope_get(self@, variable_name@) == Some(v@),
                None => scope_get(self@, variable_name@) is None,
            },
    {
        let name = String::from_str(variable_name);
        let mut i = self.frames.len();
        proof {
            assert(self@.subrange(0, i as int) =~= self@);
        }
        while i > 0
            invariant
                i <= self.frames@.len(),
                name@ == variable_name@,
                scope_get(self@, name@) == scope_get(self@.subrange(0, i as int), name@),
            decreases i,
        {
            let ghost prefix = self@.subrange(0, i as int);
            proof {
                assert(prefix.drop_last() =~= self@.subrange(0, i - 1));
            }
            match find_in_frame(&self.frames[i - 1], &name) {
                Some(j) => {
                    return Some(&self.frames[i - 1][j].1);
                },
                None => {},
            }
            i = i - 1;
        }
        None
    }

    /// Binds `variable_name` to `value` in the innermost frame, in place of
    /// its binding there if any.
    pub fn define(&mut self, variable_name: &str, value: Literal)
        requires
            old(self).wf(),
        ensures
            final(self).wf(),
            final(self)@ == scope_define(old(self)@, variable_name@, value@),
            final(self)@.len() == old(self)@.len(),
    {
        let name = String::from_str(variable_name);
        let mut frame = self.frames.pop().unwrap();
        bind_in_frame(&mut frame, name, value);
        self.frames.push(frame);
        proof {
            assert(self@ =~= scope_define(old(self)@, variable_name@, value@));
        }
    }

    /// Rebinds `variable_name` to `value` in the innermost frame that binds
    /// it, and tells whether one did; nothing changes where none does.
    pub fn assign(&mut self, variable_name: &str, value: Literal) -> (r: bool)
        requires
            old(self).wf(),
        ensures
            final(self).wf(),
            r == scope_assign(old(self)@, variable_name@, value@) is Some,
            r ==> final(self)@ == scope_assign(old(self)@, variable_name@, value@)->Some_0,
            !r ==> final(self)@ == old(self)@,
            final(self)@.len() == old(self)@.len(),
    {
        let name = String::from_str(variable_name);
        let ghost frames0 = self@;
        let mut i = self.frames.len();
        while i > 0
            invariant
                i <= self.frames@.len(),
                self.frames == old(self).frames,
                self@ == frames0,
                self.wf(),
                name@ == variable_name@,
                forall|k: int| i <= k < frames0.len() ==> !(#[trigger] frames0[k]).contains_key(name@),
            decreases i,
        {
            match find_in_frame(&self.frames[i - 1], &name) {
                Some(j) => {
                    let mut frame: Vec<(String, Literal)> = Vec::new();
                    self.frames.set_and_swap(i - 1, &mut frame);
                    let ghost before = frame@;
                    proof {
                        lemma_frame_update(frame@, j as int, (name, value));
                    }
                    frame.set(j, (name, value));
                    self.frames.set_and_swap(i - 1, &mut frame);
                    proof {
                        lemma_assign_at(frames0, name@, value@, i - 1);
                        assert(self@ =~= frames0.update(i - 1, frames0[i - 1].insert(name@, value@)));
                    }
                    return true;
                },
                None => {},
            }
            i = i - 1;
        }
        proof {
            lemma_assign_at(frames0, name@, value@, -1);
        }
        false
    }
}

/// `scope_assign` rebinds in the innermost frame `at` that binds the name,
/// or fails where none does (`at == -1`).
proof fn lemma_assign_at(frames: Seq<Map<Seq<char>, Value>>, name: Seq<char>, v: Value, at: int)
    requires
        -1 <= at < frames.len(),
        at >= 0 ==> frames[at].contains_key(name),
        forall|k: int| at < k < frames.len() ==> !(#[trigger] frames[k]).contains_key(name),
    ensures
        at >= 0 ==> scope_assign(frames, name, v) == Some(
            frames.update(at, frames[at].insert(name, v)),
        ),
        at < 0 ==> scope_assign(frames, name, v) is None,
    decreases frames.len(),
{
    if frames.len() > 0 {
        if at == frames.len() - 1 {
            assert(frames.drop_last().push(frames.last().insert(name, v)) =~= frames.update(
                at,
                frames[at].insert(name, v),
            ));
        } else {
            lemma_assign_at(frames.drop_last(), name, v, at);
            if at >= 0 {
                assert(frames.drop_last().update(at, frames[at].insert(name, v)).push(frames.last())
                    =~= frames.update(at, frames[at].insert(name, v)));
            }
        }
    }
}

} // verus!
