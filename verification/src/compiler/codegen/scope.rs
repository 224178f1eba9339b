//! The stack of scopes in which names are bound.
use crate::compiler::codegen::value::{LowerError, Operand};
use vstd::prelude::*;
use vstd::string::StringExecFns;

verus! {

/// What a name is bound to: the value it was given, the cell that holds
/// it, and whether the cell is a global of the module or lives on the
/// stack.
#[derive(Debug, Clone, Copy, PartialEq, Eq)]
pub struct Binding {
    pub value: Operand,
    pub pointer: usize,
    pub global: bool,
}

/// One scope: the names bound in it. Of two entries with the same name the
/// later one counts.
#[derive(Debug)]
pub struct Frame {
    pub entries: Vec<(String, Binding)>,
}

/// The bindings that a list of entries amounts to.
pub open spec fn frame_map(entries: Seq<(String, Binding)>) -> Map<Seq<char>, Binding>
    decreases entries.len(),
{
    if entries.len() == 0 {
        Map::empty()
    } else {
        frame_map(entries.drop_last()).insert(entries.last().0@, entries.last().1)
    }
}

impl Frame {
    /// The frame as a map from names to bindings.
    pub open spec fn view(&self) -> Map<Seq<char>, Binding> {
        frame_map(self.entries@)
    }

    /// A frame that binds nothing.
    pub fn new() -> (r: Frame)
        ensures
            r@ == Map::<Seq<char>, Binding>::empty(),
    {
        Frame { entries: Vec::new() }
    }

    /// What `identifier` is bound to in this frame.
    pub fn get(&self, identifier: &str) -> (r: Option<Binding>)
        ensures
            r == if self@.contains_key(identifier@) {
                Some(self@[identifier@])
            } else {
                None
            },
    {
        let key = String::from_str(identifier);
        let mut at = self.entries.len();
        proof {
            assert(self.entries@.take(at as int) =~= self.entries@);
        }
        while at > 0
            invariant
                at <= self.entries.len(),
                key@ == identifier@,
                frame_map(self.entries@.take(at as int)).contains_key(key@)
                    == self@.contains_key(key@),
                self@.contains_key(key@) ==> frame_map(self.entries@.take(at as int))[key@]
                    == self@[key@],
            decreases at,
        {
            proof {
                let part = self.entries@.take(at as int);
                assert(part.drop_last() =~= self.entries@.take(at - 1));
                assert(part.last() == self.entries@[at - 1]);
            }
            if self.entries[at - 1].0 == key {
                return Some(self.entries[at - 1].1);
            }
            at -= 1;
        }
        None
    }

    /// Binds `identifier` in this frame, in place of what it was bound to.
    pub fn insert(&mut self, identifier: String, binding: Binding)
        ensures
            final(self)@ == old(self)@.insert(identifier@, binding),
    {
        proof {
            assert(self.entries@.push((identifier, binding)).drop_last() =~= self.entries@);
        }
        self.entries.push((identifier, binding));
    }
}

/// The frames as maps, outermost first.
pub open spec fn frames_view(frames: Seq<Frame>) -> Seq<Map<Seq<char>, Binding>> {
    Seq::new(frames.len(), |i: int| frames[i]@)
}

/// What `name` is bound to: its binding in the innermost frame that binds
/// it.
pub open spec fn resolve(scopes: Seq<Map<Seq<char>, Binding>>, name: Seq<char>) -> Option<Binding>
    decreases scopes.len(),
{
    if scopes.len() == 0 {
        None
    } else if scopes.last().contains_key(name) {
        Some(scopes.last()[name])
    } else {
        resolve(scopes.drop_last(), name)
    }
}

/// What `name` is bound to in the innermost frame.
pub open spec fn innermost(scopes: Seq<Map<Seq<char>, Binding>>, name: Seq<char>) -> Option<
    Binding,
> {
    if scopes.len() > 0 && scopes.last().contains_key(name) {
        Some(scopes.last()[name])
    } else {
        None
    }
}

/// The scopes after `name` is bound in the innermost frame.
pub open spec fn bound(
    scopes: Seq<Map<Seq<char>, Binding>>,
    name: Seq<char>,
    binding: Binding,
) -> Seq<Map<Seq<char>, Binding>> {
    scopes.drop_last().push(scopes.last().insert(name, binding))
}

/// The stack of scopes of one compilation. A frame is pushed where the body
/// of a function begins and popped where it ends; blocks open no frame.
#[derive(Debug)]
pub struct Scopes {
    pub frames: Vec<Frame>,
}

impl Scopes {
    /// The frames as maps, outermost first.
    pub open spec fn view(&self) -> Seq<Map<Seq<char>, Binding>> {
        frames_view(self.frames@)
    }

    /// A stack without frames.
    pub fn new() -> (r: Scopes)
        ensures
            r@ == Seq::<Map<Seq<char>, Binding>>::empty(),
    {
        let r = Scopes { frames: Vec::new() };
        proof {
            assert(r@ =~= Seq::<Map<Seq<char>, Binding>>::empty());
        }
        r
    }

    /// Opens a frame that binds nothing.
    pub fn push_frame(&mut self)
        ensures
            final(self)@ == old(self)@.push(Map::empty()),
    {
        let frame = Frame::new();
        self.frames.push(frame);
        proof {
            assert(self@ =~= old(self)@.push(Map::empty()));
        }
    }

    /// Closes the innermost frame and hands it out. Without a frame,
    /// nothing changes.
    pub fn pop_frame(&mut self) -> (r: Option<Frame>)
        ensures
            old(self)@.len() == 0 ==> r is None && final(self)@ == old(self)@,
            old(self)@.len() > 0 ==> r is Some && r->0@ == old(self)@.last(),
            old(self)@.len() > 0 ==> final(self)@ == old(self)@.drop_last(),
    {
        let r = self.frames.pop();
        proof {
            assert(old(self)@.len() == 0 ==> self@ =~= old(self)@);
            assert(old(self)@.len() > 0 ==> self@ =~= old(self)@.drop_last());
        }
        r
    }

    /// Binds `identifier` in the innermost frame, in place of what it was
    /// bound to there. Fails, and changes nothing, where no frame is open.
    pub fn bind(&mut self, identifier: String, binding: Binding) -> (r: Result<(), LowerError>)
        ensures
            old(self)@.len() == 0 ==> r == Err::<(), LowerError>(LowerError::NoFrame),
            old(self)@.len() == 0 ==> final(self)@ == old(self)@,
            old(self)@.len() > 0 ==> r is Ok,
            old(self)@.len() > 0 ==> final(self)@ == bound(old(self)@, identifier@, binding),
    {
        match self.frames.pop() {
            None => {
                proof {
                    assert(self@ =~= old(self)@);
                }
                Err(LowerError::NoFrame)
            },
            Some(frame) => {
                let mut frame = frame;
                frame.insert(identifier, binding);
                self.frames.push(frame);
                proof {
                    assert(self@ =~= bound(old(self)@, identifier@, binding));
                }
                Ok(())
            },
        }
    }

    /// What `identifier` is bound to: its binding in the innermost frame
    /// that binds it.
    pub fn resolve(&self, identifier: &str) -> (r: Option<Binding>)
        ensures
            r == resolve(self@, identifier@),
    {
        let mut at = self.frames.len();
        proof {
            assert(self@.take(at as int) =~= self@);
        }
        while at > 0
            invariant
                at <= self.frames.len(),
                resolve(self@.take(at as int), identifier@) == resolve(self@, identifier@),
            decreases at,
        {
            proof {
                let part = self@.take(at as int);
                assert(part.drop_last() =~= self@.take(at - 1));
                assert(part.last() == self.frames@[at - 1]@);
            }
            match self.frames[at - 1].get(identifier) {
                Some(binding) => {
                    return Some(binding);
                },
                None => {},
            }
            at -= 1;
        }
        None
    }

    /// What `identifier` is bound to in the innermost frame.
    pub fn innermost(&self, identifier: &str) -> (r: Option<Binding>)
        ensures
            r == innermost(self@, identifier@),
    {
        let count = self.frames.len();
        if count == 0 {
            None
        } else {
            self.frames[count - 1].get(identifier)
        }
    }
}

} // verus!
