//! An element's list of space-separated tokens (such as its classes).
use vstd::prelude::*;
use vstd::string::StringExecFns;

verus! {

/// The list without every token that `removed` holds, order kept.
pub open spec fn without_tokens(s: Seq<Seq<char>>, removed: Seq<Seq<char>>) -> Seq<Seq<char>>
    decreases s.len(),
{
    if s.len() == 0 {
        Seq::empty()
    } else {
        let rest = without_tokens(s.drop_last(), removed);
        if removed.contains(s.last()) {
            rest
        } else {
            rest.push(s.last())
        }
    }
}

/// The tokens joined by single spaces.
pub open spec fn joined(s: Seq<Seq<char>>) -> Seq<char>
    decreases s.len(),
{
    if s.len() == 0 {
        Seq::empty()
    } else if s.len() == 1 {
        s[0]
    } else {
        joined(s.drop_last()) + seq![' '] + s.last()
    }
}

pub open spec fn strings_view(v: Seq<String>) -> Seq<Seq<char>> {
    v.map_values(|s: String| s@)
}

pub struct DOMTokenList {
    items: Vec<String>,
}

impl View for DOMTokenList {
    type V = Seq<Seq<char>>;

    closed spec fn view(&self) -> Seq<Seq<char>> {
        strings_view(self.items@)
    }
}

fn strings_contain(v: &Vec<String>, token: &String) -> (r: bool)
    ensures
        r == strings_view(v@).contains(token@),
{
    let mut i: usize = 0;
    while i < v.len()
        invariant
            i <= v.len(),
            forall|j: int| 0 <= j < i ==> v@[j]@ != token@,
        decreases v.len() - i,
    {
        if v[i] == *token {
            assert(strings_view(v@)[i as int] == token@);
            return true;
        }
        i += 1;
    }
    assert(!strings_view(v@).contains(token@)) by {
        if strings_view(v@).contains(token@) {
            let k = choose|k: int| 0 <= k < strings_view(v@).len() && strings_view(v@)[k] == token@;
            assert(v@[k]@ == token@);
        }
    }
    false
}

impl DOMTokenList {
    pub fn new() -> (r: Self)
        ensures
            r@ == Seq::<Seq<char>>::empty(),
    {
        let r = DOMTokenList { items: Vec::new() };
        assert(r@ =~= Seq::<Seq<char>>::empty());
        r
    }

    pub fn length(&self) -> (r: usize)
        ensures
            r == self@.len(),
    {
        self.items.len()
    }

    pub fn item(&self, index: usize) -> (r: Option<String>)
        ensures
            index < self@.len() ==> (r matches Some(s) && s@ == self@[index as int]),
            index >= self@.len() ==> r is None,
    {
        if index < self.items.len() {
            Some(self.items[index].clone())
        } else {
            None
        }
    }

    pub fn contains(&self, token: &str) -> (r: bool)
        ensures
            r == self@.contains(token@),
    {
        let t = token.to_owned();
        strings_contain(&self.items, &t)
    }

    /// Appends the tokens, in order, at the end of the list.
    pub fn add(&mut self, tokens: Vec<String>)
        ensures
            final(self)@ == old(self)@ + strings_view(tokens@),
    {
        let ghost added = tokens@;
        let mut tokens = tokens;
        self.items.append(&mut tokens);
        proof {
            assert(self@ =~= old(self)@ + strings_view(added));
        }
    }

    /// Removes every token that `tokens` holds; the others keep their order.
    pub fn remove(&mut self, tokens: Vec<String>)
        ensures
            final(self)@ == without_tokens(old(self)@, strings_view(tokens@)),
    {
        let ghost old_view = self@;
        let ghost removed = strings_view(tokens@);
        let mut kept: Vec<String> = Vec::new();
        let mut i: usize = 0;
        while i < self.items.len()
            invariant
                i <= self.items.len(),
                self@ == old_view,
                removed == strings_view(tokens@),
                strings_view(kept@) == without_tokens(old_view.take(i as int), removed),
            decreases self.items.len() - i,
        {
            let found = strings_contain(&tokens, &self.items[i]);
            assert(old_view.take(i + 1).drop_last() =~= old_view.take(i as int));
            assert(old_view[i as int] == self.items@[i as int]@);
            if !found {
                kept.push(self.items[i].clone());
            }
            proof {
                let t = old_view.take(i + 1);
                assert(t.last() == self.items@[i as int]@);
                assert(strings_view(kept@) =~= without_tokens(t, removed));
            }
            i += 1;
        }
        assert(old_view.take(i as int) =~= old_view);
        self.items = kept;
    }

    /// The tokens joined by single spaces.
    pub fn value(&self) -> (r: String)
        ensures
            r@ == joined(self@),
    {
        let mut out = String::new();
        let mut i: usize = 0;
        proof {
            reveal_strlit(" ");
        }
        while i < self.items.len()
            invariant
                i <= self.items.len(),
                out@ == joined(self@.take(i as int)),
            decreases self.items.len() - i,
        {
            let ghost before = out@;
            if i > 0 {
                out.append(" ");
            }
            out.append(self.items[i].as_str());
            proof {
                let t = self@.take(i + 1);
                assert(t.drop_last() =~= self@.take(i as int));
                assert(t.last() == self.items@[i as int]@);
                reveal_strlit(" ");
                assert(" "@ =~= seq![' ']);
                assert(out@ =~= joined(t));
            }
            i += 1;
        }
        assert(self@.take(i as int) =~= self@);
        out
    }
}

} // verus!
