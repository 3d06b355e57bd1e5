use vstd::prelude::*;
use crate::module::TextEq;
use crate::value::{spec_equals, LoxObject, Value};
use vstd::string::StringExecFns;

verus! {

/// The object store with its string-interning pool. Handles are indices
/// into `objects`; each string contents is interned once.
#[derive(Debug)]
pub struct MemManager {
    pub objects: Vec<LoxObject>,
    pub strings: Vec<(String, usize)>,
}

/// The handle interned for contents `s`, if any.
pub open spec fn interned(strings: Seq<(String, usize)>, s: Seq<char>) -> Option<usize> {
    if exists|i: int| 0 <= i < strings.len() && (#[trigger] strings[i]).0@ == s {
        Some(strings[choose|i: int| 0 <= i < strings.len() && (#[trigger] strings[i]).0@ == s].1)
    } else {
        None
    }
}

impl MemManager {
    /// Each contents is interned once, and each handle names a string
    /// object of those contents.
    pub open spec fn wf(&self) -> bool {
        &&& forall|i: int, j: int| 0 <= i < self.strings@.len() && 0 <= j < self.strings@.len() && i != j
            ==> (#[trigger] self.strings@[i]).0@ != (#[trigger] self.strings@[j]).0@
        &&& forall|i: int| 0 <= i < self.strings@.len() ==> {
            &&& (#[trigger] self.strings@[i]).1 < self.objects@.len()
            &&& self.objects@[self.strings@[i].1 as int] matches LoxObject::String(t) && t@ == self.strings@[i].0@
        }
    }

    /// An empty store.
    pub fn new() -> (r: MemManager)
        ensures
            r.wf(),
            r.objects@.len() == 0,
            r.strings@.len() == 0,
    {
        MemManager { objects: Vec::new(), strings: Vec::new() }
    }

    /// Stores an object; returns its handle.
    pub fn push(&mut self, obj: LoxObject) -> (r: usize)
        requires
            old(self).wf(),
        ensures
            final(self).wf(),
            final(self).objects@ == old(self).objects@.push(obj),
            final(self).strings == old(self).strings,
            r == old(self).objects@.len(),
    {
        self.objects.push(obj);
        proof {
            assert forall|i: int| 0 <= i < self.strings@.len() implies {
                &&& (#[trigger] self.strings@[i]).1 < self.objects@.len()
                &&& self.objects@[self.strings@[i].1 as int] matches LoxObject::String(t) && t@ == self.strings@[i].0@
            } by {
                assert(self.objects@[self.strings@[i].1 as int] == old(self).objects@[self.strings@[i].1 as int]);
            }
        }
        self.objects.len() - 1
    }

    /// The handle of the interned string with contents `s`, if any.
    pub fn find_string(&self, s: &str) -> (r: Option<usize>)
        requires
            self.wf(),
        ensures
            r == interned(self.strings@, s@),
    {
        let mut i: usize = 0;
        while i < self.strings.len()
            invariant
                self.wf(),
                i <= self.strings@.len(),
                forall|j: int| 0 <= j < i ==> (#[trigger] self.strings@[j]).0@ != s@,
            decreases self.strings@.len() - i,
        {
            if self.strings[i].0.as_str().eq_text(s) {
                proof {
                    let p = self.strings@;
                    let c = choose|k: int| 0 <= k < p.len() && (#[trigger] p[k]).0@ == s@;
                    assert(p[i as int].0@ == s@);
                    if c != i {
                        assert(p[c].0@ != p[i as int].0@);
                    }
                }
                return Some(self.strings[i].1);
            }
            i = i + 1;
        }
        None
    }

    /// Interns `s`: the handle of the string object with these contents,
    /// created and recorded if new.
    pub fn add_string(&mut self, s: &str) -> (r: usize)
        requires
            old(self).wf(),
        ensures
            final(self).wf(),
            r < final(self).objects@.len(),
            final(self).objects@[r as int] matches LoxObject::String(t) && t@ == s@,
            interned(final(self).strings@, s@) == Some(r),
            interned(old(self).strings@, s@) matches Some(h) ==> r == h && *final(self) == *old(self),
            interned(old(self).strings@, s@) is None ==> r == old(self).objects@.len()
                && final(self).objects@.len() == old(self).objects@.len() + 1
                && final(self).strings@.len() == old(self).strings@.len() + 1,
            final(self).objects@.len() >= old(self).objects@.len(),
    {
        match self.find_string(s) {
            Some(h) => {
                proof {
                    let p = self.strings@;
                    let c = choose|k: int| 0 <= k < p.len() && (#[trigger] p[k]).0@ == s@;
                    assert(p[c].1 == h);
                }
                h
            },
            None => {
                let text = String::from_str(s);
                let h = self.push(LoxObject::String(text));
                let ghost before = self.strings@;
                self.strings.push((String::from_str(s), h));
                proof {
                    let p = self.strings@;
                    assert(p[p.len() - 1].0@ == s@);
                    assert forall|k: int| 0 <= k < p.len() && (#[trigger] p[k]).0@ == s@ implies k == p.len() - 1 by {
                        if k < p.len() - 1 {
                            assert(before[k].0@ != s@);
                        }
                    }
                }
                h
            },
        }
    }

    /// Stores `obj`, interning it if it is a string; returns its handle.
    pub fn alloc_obj(&mut self, obj: LoxObject) -> (r: usize)
        requires
            old(self).wf(),
        ensures
            final(self).wf(),
            r < final(self).objects@.len(),
            obj matches LoxObject::String(t) ==> interned(final(self).strings@, t@) == Some(r)
                && (interned(old(self).strings@, t@) is Some ==> *final(self) == *old(self))
                && (interned(old(self).strings@, t@) is None ==> r == old(self).objects@.len()
                    && final(self).objects@.len() == old(self).objects@.len() + 1
                    && final(self).strings@.len() == old(self).strings@.len() + 1),
            !(obj is String) ==> final(self).objects@ == old(self).objects@.push(obj)
                && final(self).strings == old(self).strings && r == old(self).objects@.len(),
    {
        match obj {
            LoxObject::String(t) => self.add_string(t.as_str()),
            other => self.push(other),
        }
    }

    /// Takes the string `s` out of the pool: its object if it was
    /// interned, else a new string object of those contents.
    pub fn take_string(&mut self, s: &str) -> (r: LoxObject)
        requires
            old(self).wf(),
        ensures
            final(self).wf(),
            r matches LoxObject::String(t) && t@ == s@,
            interned(final(self).strings@, s@) is None,
            final(self).objects == old(self).objects,
            interned(old(self).strings@, s@) is None ==> final(self).strings == old(self).strings,
            interned(old(self).strings@, s@) is Some ==> exists|i: int| 0 <= i < old(self).strings@.len()
                && (#[trigger] old(self).strings@[i]).0@ == s@ && final(self).strings@ == old(self).strings@.remove(i),
    {
        let mut i: usize = 0;
        while i < self.strings.len()
            invariant
                self.wf(),
                *self == *old(self),
                i <= self.strings@.len(),
                forall|j: int| 0 <= j < i ==> (#[trigger] self.strings@[j]).0@ != s@,
            decreases self.strings@.len() - i,
        {
            if self.strings[i].0.as_str().eq_text(s) {
                let ghost before = self.strings@;
                self.strings.remove(i);
                proof {
                    assert(before[i as int].0@ == s@ && self.strings@ == before.remove(i as int));
                    let p = self.strings@;
                    assert forall|k: int| 0 <= k < p.len() implies (#[trigger] p[k]).0@ != s@ by {
                        if k < i {
                            assert(p[k] == before[k]);
                            assert(before[k].0@ != before[i as int].0@);
                        } else {
                            assert(p[k] == before[k + 1]);
                            assert(before[k + 1].0@ != before[i as int].0@);
                        }
                    }
                    assert forall|a: int, b: int| 0 <= a < p.len() && 0 <= b < p.len() && a != b
                        implies (#[trigger] p[a]).0@ != (#[trigger] p[b]).0@ by {
                        let a2 = if a < i { a } else { a + 1 };
                        let b2 = if b < i { b } else { b + 1 };
                        assert(p[a] == before[a2]);
                        assert(p[b] == before[b2]);
                    }
                    assert forall|k: int| 0 <= k < p.len() implies {
                        &&& (#[trigger] p[k]).1 < self.objects@.len()
                        &&& self.objects@[p[k].1 as int] matches LoxObject::String(t) && t@ == p[k].0@
                    } by {
                        let k2 = if k < i { k } else { k + 1 };
                        assert(p[k] == before[k2]);
                    }
                }
                return LoxObject::String(String::from_str(s));
            }
            i = i + 1;
        }
        LoxObject::String(String::from_str(s))
    }
}

/// Interning is by contents: two strings with equal contents get the same
/// handle, and each handle holds a string of those contents.
pub proof fn lemma_interning(m: MemManager, a: Seq<char>, b: Seq<char>)
    requires
        m.wf(),
        a == b,
    ensures
        interned(m.strings@, a) == interned(m.strings@, b),
        interned(m.strings@, a) matches Some(h) ==> h < m.objects@.len()
            && (m.objects@[h as int] matches LoxObject::String(t) && t@ == a),
{
    if let Some(h) = interned(m.strings@, a) {
        let p = m.strings@;
        let c = choose|k: int| 0 <= k < p.len() && (#[trigger] p[k]).0@ == a;
        assert(p[c].1 == h);
    }
}

/// Two string literals with equal contents are equal values, and the pool
/// gives them the same handle.
pub proof fn lemma_equal_strings(m: MemManager, a: String, b: String)
    requires
        m.wf(),
        a@ == b@,
    ensures
        spec_equals(Value::Object(LoxObject::String(a)), Value::Object(LoxObject::String(b))),
        interned(m.strings@, a@) == interned(m.strings@, b@),
{
    lemma_interning(m, a@, b@);
}

} // verus!
