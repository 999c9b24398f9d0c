//! The scope chain: a stack of frames mapping variable names to values.
//!
//! The frames live in one arena: `entries` holds every binding in the order
//! it was made, and `starts` holds the index where each frame begins. The
//! innermost frame is the part of `entries` from `starts.last()` on; name
//! search walks the entries backwards, which finds the innermost binding
//! first, exactly as a chain of enclosing scopes would.

use vstd::prelude::*;

use crate::parser::types::{val_of, Val, Value};

verus! {

/// The index of the innermost binding of `name`, or -1 when there is none.
pub open spec fn env_rfind(entries: Seq<(Seq<char>, Val)>, name: Seq<char>) -> int
    decreases entries.len(),
{
    if entries.len() == 0 {
        -1
    } else if entries.last().0 == name {
        entries.len() - 1
    } else {
        env_rfind(entries.drop_last(), name)
    }
}

/// The innermost value bound to `name`, if any.
pub open spec fn env_lookup(entries: Seq<(Seq<char>, Val)>, name: Seq<char>) -> Option<Val> {
    let k = env_rfind(entries, name);
    if k >= 0 {
        Some(entries[k].1)
    } else {
        None
    }
}

/// A binding anywhere in the entries means the search succeeds.
pub proof fn lemma_rfind_found(entries: Seq<(Seq<char>, Val)>, name: Seq<char>, j: int)
    requires
        0 <= j < entries.len(),
        entries[j].0 == name,
    ensures
        env_rfind(entries, name) >= j,
    decreases entries.len(),
{
    if entries.last().0 != name {
        lemma_rfind_found(entries.drop_last(), name, j);
    }
}

/// The search result is a real index with the searched name.
pub proof fn lemma_rfind_valid(entries: Seq<(Seq<char>, Val)>, name: Seq<char>)
    ensures
        env_rfind(entries, name) < entries.len(),
        env_rfind(entries, name) >= 0 ==> entries[env_rfind(entries, name)].0 == name,
        env_rfind(entries, name) >= -1,
    decreases entries.len(),
{
    if entries.len() > 0 && entries.last().0 != name {
        lemma_rfind_valid(entries.drop_last(), name);
    }
}

/// The shadowing law: in a freshly opened scope every name can be defined.
/// The innermost frame is empty, so `define`'s only refusal — a binding
/// already in that exact frame — cannot arise, whatever the enclosing
/// frames hold; a name bound outside is shadowed, not rejected.
pub proof fn lemma_fresh_scope_accepts_any_name(e: &Environment, name: Seq<char>)
    requires
        e.wf(),
        e.top_start() == e.deep().len(),
    ensures
        env_rfind(e.top_frame(), name) == -1,
{
    assert(e.top_frame() =~= Seq::<(Seq<char>, Val)>::empty());
}

/// One lexical scope level: a mapping from names to values, linked to the
/// scopes that enclose it.
pub struct Environment {
    entries: Vec<(String, Value)>,
    starts: Vec<usize>,
}

impl Environment {
    /// Every binding, innermost frames last, as names and mathematical
    /// values.
    pub closed spec fn deep(&self) -> Seq<(Seq<char>, Val)> {
        self.entries@.map_values(|p: (String, Value)| (p.0@, val_of(p.1)))
    }

    /// Where each frame begins in the entries; one entry per open scope.
    pub closed spec fn frame_starts(&self) -> Seq<usize> {
        self.starts@
    }

    /// The start of the innermost frame.
    pub open spec fn top_start(&self) -> int {
        self.frame_starts().last() as int
    }

    /// At least the global frame is open, frame starts never pass the
    /// entries, frames nest in order, and every stored number is in bounds.
    pub closed spec fn wf(&self) -> bool {
        &&& self.starts@.len() >= 1
        &&& self.starts@[0] == 0
        &&& forall|k: int|
            0 <= k < self.starts@.len() ==> (#[trigger] self.starts@[k]) as int
                <= self.entries@.len()
        &&& forall|k1: int, k2: int|
            0 <= k1 <= k2 < self.starts@.len() ==> (#[trigger] self.starts@[k1]) as int <= (
            #[trigger] self.starts@[k2]) as int
        &&& forall|k: int|
            0 <= k < self.entries@.len() ==> (#[trigger] self.entries@[k]).1.wf()
    }

    /// Bindings of the innermost frame.
    pub open spec fn top_frame(&self) -> Seq<(Seq<char>, Val)> {
        self.deep().subrange(self.top_start(), self.deep().len() as int)
    }

    /// A well-formed chain always has its global frame open.
    pub proof fn lemma_wf_starts(&self)
        requires
            self.wf(),
        ensures
            self.frame_starts().len() >= 1,
    {
    }

    /// The bindings always fit in memory.
    pub proof fn lemma_deep_len(&self)
        ensures
            self.deep().len() <= usize::MAX,
    {
        vstd::std_specs::vec::axiom_spec_len(&self.entries);
    }

    /// A fresh global scope with no bindings.
    pub fn new() -> (r: Environment)
        ensures
            r.wf(),
            r.deep() =~= Seq::<(Seq<char>, Val)>::empty(),
            r.frame_starts() =~= seq![0usize],
    {
        let mut starts: Vec<usize> = Vec::new();
        starts.push(0);
        Environment { entries: Vec::new(), starts }
    }

    /// A fresh scope whose enclosing chain is `enclosing`.
    pub fn new_with_enclosing(enclosing: Environment) -> (r: Environment)
        requires
            enclosing.wf(),
        ensures
            r.wf(),
            r.deep() == enclosing.deep(),
            r.frame_starts() == enclosing.frame_starts().push(
                enclosing.deep().len() as usize,
            ),
    {
        let mut e = enclosing;
        e.enter_new_scope();
        e
    }

    /// Opens a new innermost scope.
    pub fn enter_new_scope(&mut self)
        requires
            old(self).wf(),
        ensures
            final(self).wf(),
            final(self).deep() == old(self).deep(),
            final(self).frame_starts() == old(self).frame_starts().push(
                old(self).deep().len() as usize,
            ),
    {
        let n = self.entries.len();
        self.starts.push(n);
    }

    /// Binds `name` to `value` in the innermost frame; a name already bound
    /// in that exact frame is refused, while shadowing an enclosing frame's
    /// binding is allowed.
    pub fn define(&mut self, name: String, value: Value) -> (r: Result<(), EnvironmentError>)
        requires
            old(self).wf(),
            value.wf(),
        ensures
            final(self).wf(),
            final(self).frame_starts() == old(self).frame_starts(),
            if env_rfind(old(self).top_frame(), name@) >= 0 {
                (r matches Err(e) && e matches EnvironmentError::VariableAlreadyDefined(n) && n@
                    == name@) && final(self).deep() == old(self).deep()
            } else {
                r == Ok::<(), EnvironmentError>(()) && final(self).deep() == old(
                    self,
                ).deep().push((name@, val_of(value)))
            },
    {
        let top = self.starts[self.starts.len() - 1];
        let mut i: usize = top;
        let ghost frame = self.top_frame();
        proof {
            assert(frame =~= self.deep().subrange(top as int, self.deep().len() as int));
        }
        while i < self.entries.len()
            invariant
                self.wf(),
                *self == *old(self),
                top as int <= i as int <= self.entries@.len(),
                frame == self.deep().subrange(top as int, self.deep().len() as int),
                frame == old(self).top_frame(),
                env_rfind(frame.subrange(0, i - top), name@) == -1,
            decreases self.entries@.len() - i,
        {
            let ghost pre = frame.subrange(0, i - top);
            if self.entries[i].0 == name {
                proof {
                    assert(frame[i - top].0 == name@);
                    lemma_rfind_found(frame, name@, i - top);
                }
                return Err(EnvironmentError::VariableAlreadyDefined(name));
            }
            i = i + 1;
            proof {
                let cur = frame.subrange(0, i - top);
                assert(cur.drop_last() =~= pre);
                assert(cur.last() == frame[i - 1 - top]);
            }
        }
        proof {
            assert(frame.subrange(0, frame.len() as int) =~= frame);
            lemma_rfind_valid(frame, name@);
        }
        let ghost pre_deep = self.deep();
        self.entries.push((name, value));
        proof {
            assert(self.deep() =~= pre_deep.push((name@, val_of(value))));
        }
        Ok(())
    }

    /// The value of the innermost binding of `name`, searching the frames
    /// from the innermost outwards.
    pub fn get(&self, name: &String) -> (r: Result<Value, EnvironmentError>)
        requires
            self.wf(),
        ensures
            match env_lookup(self.deep(), name@) {
                Some(v) => r matches Ok(x) && val_of(x) == v && x.wf(),
                None => r matches Err(e) && e matches EnvironmentError::UndefinedVariable(n) && n@
                    == name@,
            },
    {
        proof {
            lemma_rfind_valid(self.deep(), name@);
            assert(self.deep().subrange(0, self.deep().len() as int) =~= self.deep());
        }
        let mut i: usize = self.entries.len();
        while i > 0
            invariant
                self.wf(),
                i as int <= self.entries@.len(),
                env_rfind(self.deep(), name@) == env_rfind(
                    self.deep().subrange(0, i as int),
                    name@,
                ),
            decreases i,
        {
            let ghost pre = self.deep().subrange(0, i as int);
            i = i - 1;
            if self.entries[i].0 == *name {
                proof {
                    assert(pre.last() == self.deep()[i as int]);
                    assert(env_rfind(pre, name@) == i as int);
                }
                let v = self.entries[i].1.clone();
                return Ok(v);
            }
            proof {
                assert(pre.last() == self.deep()[i as int]);
                assert(pre.drop_last() =~= self.deep().subrange(0, i as int));
            }
        }
        proof {
            assert(self.deep().subrange(0, 0) =~= Seq::<(Seq<char>, Val)>::empty());
        }
        Err(EnvironmentError::UndefinedVariable(name.clone()))
    }

    /// Replaces the innermost binding of `name` with `value`, searching the
    /// frames from the innermost outwards; an unbound name is refused.
    pub fn assign(&mut self, name: String, value: Value) -> (r: Result<(), EnvironmentError>)
        requires
            old(self).wf(),
            value.wf(),
        ensures
            final(self).wf(),
            final(self).frame_starts() == old(self).frame_starts(),
            ({
                let k = env_rfind(old(self).deep(), name@);
                if k >= 0 {
                    r == Ok::<(), EnvironmentError>(()) && final(self).deep() == old(
                        self,
                    ).deep().update(k, (old(self).deep()[k].0, val_of(value)))
                } else {
                    (r matches Err(e) && e matches EnvironmentError::UndefinedVariable(n) && n@
                        == name@) && final(self).deep() == old(self).deep()
                }
            }),
    {
        proof {
            lemma_rfind_valid(self.deep(), name@);
            assert(self.deep().subrange(0, self.deep().len() as int) =~= self.deep());
        }
        let mut i: usize = self.entries.len();
        while i > 0
            invariant
                self.wf(),
                *self == *old(self),
                value.wf(),
                i as int <= self.entries@.len(),
                env_rfind(self.deep(), name@) == env_rfind(
                    self.deep().subrange(0, i as int),
                    name@,
                ),
            decreases i,
        {
            let ghost pre = self.deep().subrange(0, i as int);
            i = i - 1;
            if self.entries[i].0 == name {
                proof {
                    assert(pre.last() == self.deep()[i as int]);
                    assert(env_rfind(pre, name@) == i as int);
                }
                let ghost pre_deep = self.deep();
                let ghost pre_entries = self.entries@;
                let (key, _) = self.entries.remove(i);
                let ghost key_ghost = key;
                let ghost value_ghost = value;
                self.entries.insert(i, (key, value));
                proof {
                    assert(self.entries@ =~= pre_entries.update(
                        i as int,
                        (key_ghost, value_ghost),
                    ));
                    assert forall|k: int|
                        0 <= k < self.entries@.len() implies (
                    #[trigger] self.entries@[k]).1.wf() by {
                        if k != i {
                            assert(self.entries@[k] == pre_entries[k]);
                            assert(pre_entries[k].1.wf());
                        } else {
                            assert(self.entries@[k] == (key_ghost, value_ghost));
                            assert(value_ghost.wf());
                        }
                    }
                    assert(self.deep() =~= pre_deep.update(
                        i as int,
                        (pre_deep[i as int].0, val_of(value_ghost)),
                    ));
                }
                return Ok(());
            }
            proof {
                assert(pre.last() == self.deep()[i as int]);
                assert(pre.drop_last() =~= self.deep().subrange(0, i as int));
            }
        }
        proof {
            assert(self.deep().subrange(0, 0) =~= Seq::<(Seq<char>, Val)>::empty());
        }
        Err(EnvironmentError::UndefinedVariable(name))
    }

    /// Closes the innermost scope, restoring its enclosing scope, and
    /// returns the closed scope; closing the global scope is refused.
    pub fn exit_current_scope(&mut self) -> (r: Result<Environment, EnvironmentError>)
        requires
            old(self).wf(),
        ensures
            final(self).wf(),
            old(self).frame_starts().len() == 1 ==> r == Err::<Environment, EnvironmentError>(
                EnvironmentError::ExitingGlobalScope,
            ) && final(self).deep() == old(self).deep() && final(self).frame_starts() == old(
                self,
            ).frame_starts(),
            old(self).frame_starts().len() > 1 ==> (r matches Ok(popped) && popped.wf()
                && popped.deep() == old(self).top_frame() && popped.frame_starts() =~= seq![0usize]
                && final(self).deep() == old(self).deep().subrange(0, old(self).top_start())
                && final(self).frame_starts() == old(self).frame_starts().drop_last()),
    {
        if self.starts.len() == 1 {
            return Err(EnvironmentError::ExitingGlobalScope);
        }
        let top = match self.starts.pop() {
            Some(t) => t,
            None => {
                proof {
                    assert(false);
                }
                0
            },
        };
        let popped_entries = self.entries.split_off(top);
        let mut popped_starts: Vec<usize> = Vec::new();
        popped_starts.push(0);
        let popped = Environment { entries: popped_entries, starts: popped_starts };
        proof {
            assert(final(self).deep() =~= old(self).deep().subrange(0, old(self).top_start()));
            assert(popped.deep() =~= old(self).top_frame());
        }
        Ok(popped)
    }
}

/// What can go wrong inside the scope chain itself.
#[derive(Debug, PartialEq)]
pub enum EnvironmentError {
    /// The name is already bound in the innermost frame.
    VariableAlreadyDefined(String),
    /// No frame binds the name.
    UndefinedVariable(String),
    /// An attempt to close the global scope.
    ExitingGlobalScope,
}

} // verus!
