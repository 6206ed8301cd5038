//! Session state for the script front end: one `Lib` per session, holding
//! the named boolean parameters handed to the compiler. The parameter handle
//! is a builder whose calls chain.

use vstd::prelude::*;

verus! {

/// The named boolean parameters of one front-end session.
pub struct SetParam {
    entries: Vec<(String, bool)>,
}

impl View for SetParam {
    type V = Seq<(String, bool)>;

    closed spec fn view(&self) -> Seq<(String, bool)> {
        self.entries@
    }
}

impl SetParam {
    pub fn new() -> (r: SetParam)
        ensures
            r@.len() == 0,
    {
        SetParam { entries: Vec::new() }
    }

    /// Record one named boolean parameter; calls chain.
    pub fn boolean(&mut self, name: &str, value: bool) -> (r: &mut SetParam)
        ensures
            (*r)@.len() == old(self)@.len() + 1,
            (*r)@.take(old(self)@.len() as int) == old(self)@,
            (*r)@.last().0@ == name@,
            (*r)@.last().1 == value,
            *final(self) == *final(r),
    {
        self.entries.push((name.to_owned(), value));
        proof {
            assert(self@.take(old(self)@.len() as int) =~= old(self)@);
        }
        self
    }

    pub fn len(&self) -> (n: usize)
        ensures
            n == self@.len(),
    {
        self.entries.len()
    }

    /// The value recorded at a position, oldest first.
    pub fn get(&self, i: usize) -> (r: (&String, bool))
        requires
            i < self@.len(),
        ensures
            r.0@ == self@[i as int].0@,
            r.1 == self@[i as int].1,
    {
        (&self.entries[i].0, self.entries[i].1)
    }
}

/// One front-end session. Owning the session value replaces the global
/// in-use flag: the type system allows one user at a time.
pub struct Lib {
    pub params: SetParam,
}

impl Lib {
    pub fn new() -> (r: Lib)
        ensures
            r.params@.len() == 0,
    {
        Lib { params: SetParam::new() }
    }

    /// The session's parameter set, ready for chained `boolean` calls.
    pub fn set_param(&mut self) -> (r: &mut SetParam)
        ensures
            *r == old(self).params,
            final(self).params == *final(r),
    {
        &mut self.params
    }
}

} // verus!
