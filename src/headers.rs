//! A header list in order, as the proxy's policies see it. Setting a header
//! replaces every earlier value of that name. Names are compared exactly,
//! so callers give them in lower case, the form in which HTTP libraries
//! hand them out.
use vstd::prelude::*;

verus! {

/// A header list: (name, value) pairs in order. Names are compared
/// exactly; callers give them in lower case.
pub struct Headers {
    entries: Vec<(String, String)>,
}

/// The entries of `h` whose name is not `name`, in order.
pub open spec fn without_name(h: Seq<(Seq<char>, Seq<char>)>, name: Seq<char>) -> Seq<
    (Seq<char>, Seq<char>),
>
    decreases h.len(),
{
    if h.len() == 0 {
        h
    } else if h.last().0 == name {
        without_name(h.drop_last(), name)
    } else {
        without_name(h.drop_last(), name).push(h.last())
    }
}

/// `h` with `name` set to `value` alone.
pub open spec fn with_header(h: Seq<(Seq<char>, Seq<char>)>, name: Seq<char>, value: Seq<char>) -> Seq<
    (Seq<char>, Seq<char>),
> {
    without_name(h, name).push((name, value))
}

/// No entry of `h` has the name `name`.
pub open spec fn lacks(h: Seq<(Seq<char>, Seq<char>)>, name: Seq<char>) -> bool {
    forall|i: int| 0 <= i < h.len() ==> (#[trigger] h[i]).0 != name
}

/// Removing a name leaves no entry of it, and keeps every entry of
/// another name.
pub proof fn lemma_without_name(h: Seq<(Seq<char>, Seq<char>)>, name: Seq<char>)
    ensures
        lacks(without_name(h, name), name),
        forall|e: (Seq<char>, Seq<char>)|
            #![trigger without_name(h, name).contains(e)]
            h.contains(e) && e.0 != name ==> without_name(h, name).contains(e),
        forall|e: (Seq<char>, Seq<char>)|
            #![trigger without_name(h, name).contains(e)]
            without_name(h, name).contains(e) ==> h.contains(e),
    decreases h.len(),
{
    if h.len() > 0 {
        let t = h.drop_last();
        lemma_without_name(t, name);
        let w = without_name(t, name);
        assert forall|e: (Seq<char>, Seq<char>)|
            h.contains(e) && e.0 != name implies #[trigger] without_name(h, name).contains(e) by {
            let i = choose|i: int| 0 <= i < h.len() && h[i] == e;
            if i < h.len() - 1 {
                assert(t[i] == e);
                assert(t.contains(e));
                assert(w.contains(e));
                if h.last().0 != name {
                    let j = choose|j: int| 0 <= j < w.len() && w[j] == e;
                    assert(w.push(h.last())[j] == e);
                }
            } else {
                assert(w.push(h.last())[w.len() as int] == e);
            }
        }
        assert forall|e: (Seq<char>, Seq<char>)|
            #[trigger] without_name(h, name).contains(e) implies h.contains(e) by {
            let i = choose|i: int| 0 <= i < without_name(h, name).len() && without_name(h, name)[i] == e;
            if i < w.len() {
                assert(w[i] == e);
                assert(w.contains(e));
                let j = choose|j: int| 0 <= j < t.len() && t[j] == e;
                assert(h[j] == e);
            } else {
                assert(h[h.len() - 1] == e);
            }
        }
    }
}

impl View for Headers {
    type V = Seq<(Seq<char>, Seq<char>)>;

    closed spec fn view(&self) -> Seq<(Seq<char>, Seq<char>)> {
        Seq::new(self.entries@.len(), |i: int| (self.entries@[i].0@, self.entries@[i].1@))
    }
}

impl Headers {
    /// An empty header list.
    pub fn new() -> (r: Headers)
        ensures
            r@ == Seq::<(Seq<char>, Seq<char>)>::empty(),
    {
        let r = Headers { entries: Vec::new() };
        assert(r@ =~= Seq::<(Seq<char>, Seq<char>)>::empty());
        r
    }

    /// The entries, in order.
    pub fn entries(&self) -> (r: &Vec<(String, String)>)
        ensures
            r@.len() == self@.len(),
            forall|i: int| 0 <= i < r@.len() ==> (#[trigger] r@[i]).0@ == self@[i].0 && r@[i].1@ == self@[i].1,
    {
        &self.entries
    }

    /// Adds an entry at the end, keeping earlier entries of the same name.
    pub fn append(&mut self, name: String, value: String)
        ensures
            final(self)@ == old(self)@.push((name@, value@)),
    {
        self.entries.push((name, value));
        proof {
            assert(final(self)@ =~= old(self)@.push((name@, value@)));
        }
    }

    /// Removes every entry named `name`.
    pub fn remove(&mut self, name: &str)
        ensures
            final(self)@ == without_name(old(self)@, name@),
    {
        let ghost h = self@;
        let n = name.to_owned();
        let mut kept: Vec<(String, String)> = Vec::new();
        let mut i: usize = 0;
        while i < self.entries.len()
            invariant
                h == self@,
                n@ == name@,
                i <= self.entries@.len(),
                Seq::new(kept@.len(), |k: int| (kept@[k].0@, kept@[k].1@)) == without_name(
                    h.subrange(0, i as int),
                    name@,
                ),
            decreases self.entries@.len() - i,
        {
            let ghost before = Seq::new(kept@.len(), |k: int| (kept@[k].0@, kept@[k].1@));
            proof {
                assert(h.subrange(0, i + 1).drop_last() =~= h.subrange(0, i as int));
            }
            let e = &self.entries[i];
            if e.0 != n {
                kept.push((e.0.clone(), e.1.clone()));
                proof {
                    let after = Seq::new(kept@.len(), |k: int| (kept@[k].0@, kept@[k].1@));
                    assert(after =~= before.push(h[i as int]));
                }
            }
            i += 1;
        }
        proof {
            assert(h.subrange(0, i as int) =~= h);
        }
        self.entries = kept;
    }

    /// Sets `name` to `value`, replacing every earlier entry of that name.
    pub fn insert(&mut self, name: &str, value: &str)
        ensures
            final(self)@ == with_header(old(self)@, name@, value@),
    {
        self.remove(name);
        self.append(name.to_owned(), value.to_owned());
    }
}

} // verus!
