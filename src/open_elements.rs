//! The HTML tree builder's stack of open elements, and its scope queries.
use vstd::prelude::*;

verus! {

/// An element on the stack: the handle of its document node and its tag name.
#[derive(Debug, Clone)]
pub struct OpenElement {
    pub id: u64,
    pub tag_name: String,
}

/// The tag names that bound every scope.
pub open spec fn base_scope() -> Seq<Seq<char>> {
    seq![
        "applet"@, "caption"@, "html"@, "table"@, "td"@, "th"@, "marquee"@, "object"@,
        "template"@,
    ]
}

pub open spec fn strs_view(v: Seq<&str>) -> Seq<Seq<char>> {
    v.map_values(|s: &str| s@)
}

/// Walking down from the top of `s`, an element tagged `target` comes before
/// any element whose tag `list` holds.
pub open spec fn name_in_scope(s: Seq<OpenElement>, target: Seq<char>, list: Seq<Seq<char>>) -> bool
    decreases s.len(),
{
    if s.len() == 0 {
        false
    } else if s.last().tag_name@ == target {
        true
    } else if list.contains(s.last().tag_name@) {
        false
    } else {
        name_in_scope(s.drop_last(), target, list)
    }
}

/// As `name_in_scope`, with the element picked by its handle.
pub open spec fn node_in_scope(s: Seq<OpenElement>, target: u64, list: Seq<Seq<char>>) -> bool
    decreases s.len(),
{
    if s.len() == 0 {
        false
    } else if s.last().id == target {
        true
    } else if list.contains(s.last().tag_name@) {
        false
    } else {
        node_in_scope(s.drop_last(), target, list)
    }
}

/// Select scope: every element bounds it but `option` and `optgroup`.
pub open spec fn name_in_select_scope(s: Seq<OpenElement>, target: Seq<char>) -> bool
    decreases s.len(),
{
    if s.len() == 0 {
        false
    } else if s.last().tag_name@ == target {
        true
    } else if s.last().tag_name@ != "option"@ && s.last().tag_name@ != "optgroup"@ {
        false
    } else {
        name_in_select_scope(s.drop_last(), target)
    }
}

/// The index of the topmost element tagged `tag` in `s`, if any.
pub open spec fn is_topmost_with_tag(s: Seq<OpenElement>, tag: Seq<char>, k: int) -> bool {
    &&& 0 <= k < s.len()
    &&& s[k].tag_name@ == tag
    &&& forall|j: int| k < j < s.len() ==> s[j].tag_name@ != tag
}

pub open spec fn is_table_context(tag: Seq<char>) -> bool {
    tag == "table"@ || tag == "template"@ || tag == "html"@
}

/// `after` is `before` without its topmost element that `test` accepts, or
/// `before` itself when `test` accepts none.
pub open spec fn removed_topmost_match<F: Fn(&OpenElement) -> bool>(
    before: Seq<OpenElement>,
    after: Seq<OpenElement>,
    test: F,
) -> bool {
    ||| exists|k: int|
        {
            &&& 0 <= k < before.len()
            &&& test.ensures((&before[k],), true)
            &&& forall|j: int| k < j < before.len() ==> test.ensures((&before[j],), false)
            &&& after == before.remove(k)
        }
    ||| {
        &&& forall|j: int| 0 <= j < before.len() ==> test.ensures((&before[j],), false)
        &&& after == before
    }
}

fn str_eq(a: &String, b: &str) -> (r: bool)
    ensures
        r == (a@ == b@),
{
    *a == b.to_owned()
}

fn list_contains(list: &Vec<&str>, tag: &String) -> (r: bool)
    ensures
        r == strs_view(list@).contains(tag@),
{
    let mut i: usize = 0;
    while i < list.len()
        invariant
            i <= list.len(),
            forall|j: int| 0 <= j < i ==> list@[j]@ != tag@,
        decreases list.len() - i,
    {
        if str_eq(tag, list[i]) {
            assert(strs_view(list@)[i as int] == tag@);
            return true;
        }
        i += 1;
    }
    assert(!strs_view(list@).contains(tag@)) by {
        if strs_view(list@).contains(tag@) {
            let k = choose|k: int| 0 <= k < strs_view(list@).len() && strs_view(list@)[k] == tag@;
            assert(list@[k]@ == tag@);
        }
    }
    false
}

fn base_scope_list() -> (r: Vec<&'static str>)
    ensures
        strs_view(r@) == base_scope(),
{
    let r = vec![
        "applet", "caption", "html", "table", "td", "th", "marquee", "object", "template",
    ];
    assert(strs_view(r@) =~= base_scope());
    r
}

/// Appends the extra boundary tags to the base scope list.
fn scope_list_with(extra: Vec<&'static str>) -> (r: Vec<&'static str>)
    ensures
        strs_view(r@) == base_scope() + strs_view(extra@),
{
    let mut list = base_scope_list();
    let mut extra = extra;
    let ghost e = extra@;
    list.append(&mut extra);
    assert(strs_view(list@) =~= base_scope() + strs_view(e));
    list
}

#[derive(Debug)]
pub struct StackOfOpenElements(pub Vec<OpenElement>);

impl StackOfOpenElements {
    pub open spec fn elements(&self) -> Seq<OpenElement> {
        self.0@
    }

    pub fn new() -> (r: Self)
        ensures
            r.elements() == Seq::<OpenElement>::empty(),
    {
        StackOfOpenElements(Vec::new())
    }

    pub fn len(&self) -> (r: usize)
        ensures
            r == self.elements().len(),
    {
        self.0.len()
    }

    /// The element on top of the stack.
    pub fn current_node(&self) -> (r: Option<OpenElement>)
        ensures
            self.elements().len() == 0 ==> r is None,
            self.elements().len() > 0 ==> (r matches Some(e) && e.id == self.elements().last().id
                && e.tag_name@ == self.elements().last().tag_name@),
    {
        let n = self.0.len();
        if n == 0 {
            None
        } else {
            let e = &self.0[n - 1];
            Some(OpenElement { id: e.id, tag_name: e.tag_name.clone() })
        }
    }

    pub fn get(&self, index: usize) -> (r: OpenElement)
        requires
            index < self.elements().len(),
        ensures
            r.id == self.elements()[index as int].id,
            r.tag_name@ == self.elements()[index as int].tag_name@,
    {
        let e = &self.0[index];
        OpenElement { id: e.id, tag_name: e.tag_name.clone() }
    }

    /// The topmost element tagged `tag_name`, with its distance from the top
    /// of the stack (0 for the top element).
    pub fn last_element_with_tag_name(&self, tag_name: &str) -> (r: Option<(&OpenElement, usize)>)
        ensures
            r is None ==> forall|j: int| 0 <= j < self.elements().len()
                ==> self.elements()[j].tag_name@ != tag_name@,
            r matches Some(p) ==> {
                let k = self.elements().len() - 1 - p.1;
                &&& is_topmost_with_tag(self.elements(), tag_name@, k)
                &&& *p.0 == self.elements()[k]
            },
    {
        let n = self.0.len();
        let mut i: usize = n;
        while i > 0
            invariant
                i <= n == self.0.len(),
                forall|j: int| i <= j < n ==> self.0@[j].tag_name@ != tag_name@,
            decreases i,
        {
            if str_eq(&self.0[i - 1].tag_name, tag_name) {
                return Some((&self.0[i - 1], n - i));
            }
            i -= 1;
        }
        None
    }

    /// Pops elements up to and including the topmost one tagged `tag_name`;
    /// with no such element the stack ends empty.
    pub fn pop_until(&mut self, tag_name: &str)
        ensures
            final(self).elements().len() <= old(self).elements().len(),
            final(self).elements() == old(self).elements().take(
                final(self).elements().len() as int,
            ),
            is_topmost_with_tag(
                old(self).elements(),
                tag_name@,
                final(self).elements().len() as int,
            ) || (final(self).elements().len() == 0 && forall|j: int|
                0 <= j < old(self).elements().len() ==> old(self).elements()[j].tag_name@
                    != tag_name@),
    {
        let ghost s = self.0@;
        while self.0.len() > 0
            invariant
                s == old(self).0@,
                self.0@.len() <= s.len(),
                self.0@ == s.take(self.0@.len() as int),
                forall|j: int| self.0@.len() <= j < s.len() ==> s[j].tag_name@ != tag_name@,
            decreases self.0@.len(),
        {
            let n = self.0.len();
            let hit = str_eq(&self.0[n - 1].tag_name, tag_name);
            self.0.pop();
            assert(self.0@ =~= s.take(self.0@.len() as int));
            if hit {
                return;
            }
        }
    }

    /// Pops elements up to and including the topmost one that `test` accepts;
    /// with no such element the stack ends empty.
    pub fn pop_until_match<F>(&mut self, test: F) where F: Fn(&OpenElement) -> bool
        requires
            forall|e: &OpenElement| test.requires((e,)),
        ensures
            final(self).elements().len() <= old(self).elements().len(),
            final(self).elements() == old(self).elements().take(
                final(self).elements().len() as int,
            ),
            forall|j: int|
                final(self).elements().len() < j < old(self).elements().len() ==> test.ensures(
                    (&old(self).elements()[j],),
                    false,
                ),
            0 < final(self).elements().len() < old(self).elements().len() ==> test.ensures(
                (&old(self).elements()[final(self).elements().len() as int],),
                true,
            ),
            final(self).elements().len() == old(self).elements().len() ==> old(
                self,
            ).elements().len() == 0,
    {
        let ghost s = self.0@;
        while self.0.len() > 0
            invariant
                forall|e: &OpenElement| test.requires((e,)),
                s == old(self).0@,
                self.0@.len() <= s.len(),
                self.0@ == s.take(self.0@.len() as int),
                forall|j: int| self.0@.len() <= j < s.len() ==> test.ensures((&s[j],), false),
            decreases self.0@.len(),
        {
            let n = self.0.len();
            let hit = test(&self.0[n - 1]);
            self.0.pop();
            assert(self.0@ =~= s.take(self.0@.len() as int));
            if hit {
                return;
            }
        }
    }

    /// Pops elements until a `table`, `template` or `html` element is on top.
    pub fn clear_back_to_table_context(&mut self)
        ensures
            final(self).elements().len() <= old(self).elements().len(),
            final(self).elements() == old(self).elements().take(
                final(self).elements().len() as int,
            ),
            forall|j: int|
                final(self).elements().len() <= j < old(self).elements().len()
                    ==> !is_table_context(old(self).elements()[j].tag_name@),
            final(self).elements().len() > 0 ==> is_table_context(
                final(self).elements().last().tag_name@,
            ),
    {
        let ghost s = self.0@;
        while self.0.len() > 0
            invariant
                s == old(self).0@,
                self.0@.len() <= s.len(),
                self.0@ == s.take(self.0@.len() as int),
                forall|j: int| self.0@.len() <= j < s.len() ==> !is_table_context(s[j].tag_name@),
            decreases self.0@.len(),
        {
            let n = self.0.len();
            let t = &self.0[n - 1].tag_name;
            if str_eq(t, "table") || str_eq(t, "template") || str_eq(t, "html") {
                return;
            }
            self.0.pop();
            assert(self.0@ =~= s.take(self.0@.len() as int));
        }
    }

    /// Removes the topmost element that `test` accepts, if there is one.
    pub fn remove_first_matching<F>(&mut self, test: F) where F: Fn(&OpenElement) -> bool
        requires
            forall|e: &OpenElement| test.requires((e,)),
        ensures
            removed_topmost_match(old(self).elements(), final(self).elements(), test),
    {
        let n = self.0.len();
        let mut i: usize = n;
        while i > 0
            invariant
                i <= n == self.0.len(),
                self.0@ == old(self).0@,
                forall|e: &OpenElement| test.requires((e,)),
                forall|j: int| i <= j < n ==> test.ensures((&self.0@[j],), false),
            decreases i,
        {
            if test(&self.0[i - 1]) {
                self.0.remove(i - 1);
                return;
            }
            i -= 1;
        }
    }

    /// Whether `test` accepts some element of the stack.
    pub fn any<F>(&self, test: F) -> (r: bool) where F: Fn(&OpenElement) -> bool
        requires
            forall|e: &OpenElement| test.requires((e,)),
        ensures
            r ==> exists|j: int|
                0 <= j < self.elements().len() && test.ensures((&self.elements()[j],), true),
            !r ==> forall|j: int|
                0 <= j < self.elements().len() ==> test.ensures((&self.elements()[j],), false),
    {
        let mut i: usize = 0;
        while i < self.0.len()
            invariant
                i <= self.0.len(),
                forall|e: &OpenElement| test.requires((e,)),
                forall|j: int| 0 <= j < i ==> test.ensures((&self.0@[j],), false),
            decreases self.0.len() - i,
        {
            if test(&self.0[i]) {
                assert(test.ensures((&self.elements()[i as int],), true));
                return true;
            }
            i += 1;
        }
        false
    }

    /// Whether an element tagged `tag_name` is on the stack.
    pub fn contains(&self, tag_name: &str) -> (r: bool)
        ensures
            r == exists|j: int|
                0 <= j < self.elements().len() && self.elements()[j].tag_name@ == tag_name@,
    {
        let mut i: usize = 0;
        while i < self.0.len()
            invariant
                i <= self.0.len(),
                forall|j: int| 0 <= j < i ==> self.0@[j].tag_name@ != tag_name@,
            decreases self.0.len() - i,
        {
            if str_eq(&self.0[i].tag_name, tag_name) {
                assert(self.elements()[i as int].tag_name@ == tag_name@);
                return true;
            }
            i += 1;
        }
        false
    }

    /// Whether the element with handle `node` is on the stack.
    pub fn contains_node(&self, node: &OpenElement) -> (r: bool)
        ensures
            r == exists|j: int| 0 <= j < self.elements().len() && self.elements()[j].id == node.id,
    {
        let mut i: usize = 0;
        while i < self.0.len()
            invariant
                i <= self.0.len(),
                forall|j: int| 0 <= j < i ==> self.0@[j].id != node.id,
            decreases self.0.len() - i,
        {
            if self.0[i].id == node.id {
                assert(self.elements()[i as int].id == node.id);
                return true;
            }
            i += 1;
        }
        false
    }

    pub fn has_element_name_in_specific_scope(&self, target: &str, list: Vec<&str>) -> (r: bool)
        ensures
            r == name_in_scope(self.elements(), target@, strs_view(list@)),
    {
        let ghost s = self.0@;
        let ghost l = strs_view(list@);
        let mut i: usize = self.0.len();
        assert(s.take(i as int) =~= s);
        while i > 0
            invariant
                i <= self.0.len(),
                s == self.0@,
                l == strs_view(list@),
                name_in_scope(s, target@, l) == name_in_scope(s.take(i as int), target@, l),
            decreases i,
        {
            let t = &self.0[i - 1].tag_name;
            assert(s.take(i as int).drop_last() =~= s.take(i - 1));
            if str_eq(t, target) {
                return true;
            }
            if list_contains(&list, t) {
                return false;
            }
            i -= 1;
        }
        false
    }

    pub fn has_element_name_in_scope(&self, target: &str) -> (r: bool)
        ensures
            r == name_in_scope(self.elements(), target@, base_scope()),
    {
        self.has_element_name_in_specific_scope(target, base_scope_list())
    }

    pub fn has_element_name_in_button_scope(&self, target: &str) -> (r: bool)
        ensures
            r == name_in_scope(self.elements(), target@, base_scope().push("button"@)),
    {
        let list = scope_list_with(vec!["button"]);
        assert(strs_view(list@) =~= base_scope().push("button"@));
        self.has_element_name_in_specific_scope(target, list)
    }

    pub fn has_element_name_in_list_item_scope(&self, target: &str) -> (r: bool)
        ensures
            r == name_in_scope(self.elements(), target@, base_scope().push("ol"@).push("ul"@)),
    {
        let list = scope_list_with(vec!["ol", "ul"]);
        assert(strs_view(list@) =~= base_scope().push("ol"@).push("ul"@));
        self.has_element_name_in_specific_scope(target, list)
    }

    pub fn has_element_name_in_table_scope(&self, target: &str) -> (r: bool)
        ensures
            r == name_in_scope(
                self.elements(),
                target@,
                base_scope().push("html"@).push("table"@).push("template"@),
            ),
    {
        let list = scope_list_with(vec!["html", "table", "template"]);
        assert(strs_view(list@) =~= base_scope().push("html"@).push("table"@).push("template"@));
        self.has_element_name_in_specific_scope(target, list)
    }

    pub fn has_element_name_in_select_scope(&self, target: &str) -> (r: bool)
        ensures
            r == name_in_select_scope(self.elements(), target@),
    {
        let ghost s = self.0@;
        let mut i: usize = self.0.len();
        assert(s.take(i as int) =~= s);
        while i > 0
            invariant
                i <= self.0.len(),
                s == self.0@,
                name_in_select_scope(s, target@) == name_in_select_scope(s.take(i as int), target@),
            decreases i,
        {
            let t = &self.0[i - 1].tag_name;
            assert(s.take(i as int).drop_last() =~= s.take(i - 1));
            if str_eq(t, target) {
                return true;
            }
            if !str_eq(t, "option") && !str_eq(t, "optgroup") {
                return false;
            }
            i -= 1;
        }
        false
    }

    pub fn has_element_in_specific_scope(&self, target: &OpenElement, list: Vec<&str>) -> (r: bool)
        ensures
            r == node_in_scope(self.elements(), target.id, strs_view(list@)),
    {
        let ghost s = self.0@;
        let ghost l = strs_view(list@);
        let mut i: usize = self.0.len();
        assert(s.take(i as int) =~= s);
        while i > 0
            invariant
                i <= self.0.len(),
                s == self.0@,
                l == strs_view(list@),
                node_in_scope(s, target.id, l) == node_in_scope(s.take(i as int), target.id, l),
            decreases i,
        {
            assert(s.take(i as int).drop_last() =~= s.take(i - 1));
            if self.0[i - 1].id == target.id {
                return true;
            }
            if list_contains(&list, &self.0[i - 1].tag_name) {
                return false;
            }
            i -= 1;
        }
        false
    }

    pub fn has_element_in_scope(&self, target: &OpenElement) -> (r: bool)
        ensures
            r == node_in_scope(self.elements(), target.id, base_scope()),
    {
        self.has_element_in_specific_scope(target, base_scope_list())
    }
}

} // verus!
