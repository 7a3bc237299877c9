//! The `display` property: its typed values and the box kind each one generates.
use vstd::prelude::*;
use vstd::string::StrSliceExecFns;

verus! {

#[derive(Debug, Clone, Copy, PartialEq, Eq, Structural)]
pub enum InnerDisplayType {
    Flow,
    FlowRoot,
    Table,
    Flex,
    Grid,
    Ruby,
}

#[derive(Debug, Clone, Copy, PartialEq, Eq, Structural)]
pub enum OuterDisplayType {
    Block,
    Inline,
    RunIn,
}

#[derive(Debug, Clone, Copy, PartialEq, Eq, Structural)]
pub enum BoxDisplay {
    Contents,
    NoBox,
}

/// A full `display` value: the outer type says how the box takes part in its
/// parent's formatting context, the inner type what context it sets up.
#[derive(Debug, Clone, Copy, PartialEq, Eq, Structural)]
pub struct FullDisplay {
    inner: InnerDisplayType,
    outer: OuterDisplayType,
}

#[derive(Debug, Clone, Copy, PartialEq, Eq, Structural)]
pub enum Display {
    Full(FullDisplay),
    Box(BoxDisplay),
}

impl FullDisplay {
    pub closed spec fn inner_type(self) -> InnerDisplayType {
        self.inner
    }

    pub closed spec fn outer_type(self) -> OuterDisplayType {
        self.outer
    }

    pub fn inner(&self) -> (r: &InnerDisplayType)
        ensures
            *r == self.inner_type(),
    {
        &self.inner
    }

    pub fn outer(&self) -> (r: &OuterDisplayType)
        ensures
            *r == self.outer_type(),
    {
        &self.outer
    }
}

/// One component value of a declaration: an identifier, or anything else
/// (a number, a function, a block).
#[derive(Debug, Clone, PartialEq, Eq)]
pub enum ComponentValue {
    Ident(String),
    Other,
}

/// The two characters are equal once ASCII letters are lowered.
pub open spec fn same_letter(a: char, b: char) -> bool {
    ||| a == b
    ||| ('A' <= a <= 'Z' && b as u32 == a as u32 + 32)
    ||| ('A' <= b <= 'Z' && a as u32 == b as u32 + 32)
}

/// The two strings are equal up to the case of ASCII letters.
pub open spec fn same_ignoring_case(s: Seq<char>, t: Seq<char>) -> bool {
    &&& s.len() == t.len()
    &&& forall|i: int| 0 <= i < s.len() ==> #[trigger] same_letter(s[i], t[i])
}

pub open spec fn is_display_keyword(s: Seq<char>) -> bool {
    ||| same_ignoring_case(s, "none"@)
    ||| same_ignoring_case(s, "contents"@)
    ||| same_ignoring_case(s, "block"@)
    ||| same_ignoring_case(s, "inline"@)
}

/// `d` is what keyword `s` stands for, the first of the four keywords that
/// matches deciding.
pub open spec fn keyword_display(s: Seq<char>, d: Display) -> bool {
    if same_ignoring_case(s, "none"@) {
        d == Display::Box(BoxDisplay::NoBox)
    } else if same_ignoring_case(s, "contents"@) {
        d == Display::Box(BoxDisplay::Contents)
    } else if same_ignoring_case(s, "block"@) {
        d.is_flow(OuterDisplayType::Block)
    } else if same_ignoring_case(s, "inline"@) {
        d.is_flow(OuterDisplayType::Inline)
    } else {
        false
    }
}

fn lower_eq(a: char, b: char) -> (r: bool)
    ensures
        r == same_letter(a, b),
{
    let x = a as u32;
    let y = b as u32;
    x == y || (65 <= x && x <= 90 && y == x + 32) || (65 <= y && y <= 90 && x == y + 32)
}

/// Compares two strings, ignoring the case of ASCII letters.
pub fn eq_ignore_ascii_case(s: &str, t: &str) -> (r: bool)
    ensures
        r == same_ignoring_case(s@, t@),
{
    let n = s.unicode_len();
    if n != t.unicode_len() {
        return false;
    }
    let mut i: usize = 0;
    while i < n
        invariant
            n == s@.len() == t@.len(),
            i <= n,
            forall|k: int| 0 <= k < i ==> #[trigger] same_letter(s@[k], t@[k]),
        decreases n - i,
    {
        if !lower_eq(s.get_char(i), t.get_char(i)) {
            return false;
        }
        i += 1;
    }
    true
}

/// A single identifier that names a display keyword.
pub open spec fn parses_as_display(values: Seq<ComponentValue>) -> bool {
    &&& values.len() == 1
    &&& values[0] matches ComponentValue::Ident(s) && is_display_keyword(s@)
}

impl Display {
    /// A full display with a flow inner type and the given outer type.
    pub open spec fn is_flow(self, outer: OuterDisplayType) -> bool {
        self matches Display::Full(f) && f.outer_type() == outer && f.inner_type()
            == InnerDisplayType::Flow
    }

    /// Reads a `display` declaration's value: a single identifier among
    /// `none`, `contents`, `block` and `inline`, in any ASCII case.
    pub fn parse(values: &[ComponentValue]) -> (r: Option<Self>)
        ensures
            r is Some <==> parses_as_display(values@),
            r matches Some(d) ==> (values@[0] matches ComponentValue::Ident(s) && keyword_display(
                s@,
                d,
            )),
    {
        if values.len() != 1 {
            return None;
        }
        match &values[0] {
            ComponentValue::Ident(v) => {
                let v = v.as_str();
                if eq_ignore_ascii_case(v, "none") {
                    Some(Display::Box(BoxDisplay::NoBox))
                } else if eq_ignore_ascii_case(v, "contents") {
                    Some(Display::Box(BoxDisplay::Contents))
                } else if eq_ignore_ascii_case(v, "block") {
                    Some(Self::new_block())
                } else if eq_ignore_ascii_case(v, "inline") {
                    Some(Self::new_inline())
                } else {
                    None
                }
            },
            ComponentValue::Other => None,
        }
    }

    /// `display: none`: the node generates no box, and neither does its subtree.
    pub open spec fn spec_is_none(self) -> bool {
        self == Display::Box(BoxDisplay::NoBox)
    }

    /// The value generates an inline-level box.
    pub open spec fn spec_is_inline(self) -> bool {
        match self {
            Display::Full(f) => f.outer_type() == OuterDisplayType::Inline,
            Display::Box(_) => false,
        }
    }

    pub fn new_block() -> (r: Self)
        ensures
            r matches Display::Full(f) && f.outer_type() == OuterDisplayType::Block
                && f.inner_type() == InnerDisplayType::Flow,
    {
        Display::Full(FullDisplay { outer: OuterDisplayType::Block, inner: InnerDisplayType::Flow })
    }

    pub fn new_inline() -> (r: Self)
        ensures
            r matches Display::Full(f) && f.outer_type() == OuterDisplayType::Inline
                && f.inner_type() == InnerDisplayType::Flow,
    {
        Display::Full(FullDisplay { outer: OuterDisplayType::Inline, inner: InnerDisplayType::Flow })
    }

    pub fn is_none(&self) -> (r: bool)
        ensures
            r == self.spec_is_none(),
    {
        match self {
            Display::Box(BoxDisplay::NoBox) => true,
            _ => false,
        }
    }

    pub fn is_inline(&self) -> (r: bool)
        ensures
            r == self.spec_is_inline(),
    {
        match self {
            Display::Full(f) => match f.outer {
                OuterDisplayType::Inline => true,
                _ => false,
            },
            Display::Box(_) => false,
        }
    }
}

} // verus!
