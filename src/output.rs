use vstd::prelude::*;

verus! {

/// What one output slot of a key produces in the XKB model.
#[derive(Clone, Debug, PartialEq, Eq)]
pub enum CharOrDead {
    /// A plain character; `'\0'` stands for "nothing assigned".
    Literal(char),
    /// A named dead-key behaviour, such as `dead_caron`.
    DeadKey(String),
}

/// The two outputs of one modifier level: without and with Shift.
#[derive(Clone, Debug, PartialEq, Eq)]
pub struct Character {
    pub normal: CharOrDead,
    pub shift: CharOrDead,
}

/// The four outputs of one key: the plain level and the AltGr level.
#[derive(Clone, Debug, PartialEq, Eq)]
pub struct Output {
    pub normal: Character,
    pub altgr: Character,
}

/// Mathematical model of [`CharOrDead`].
pub ghost enum Symbol {
    Literal(char),
    DeadKey(Seq<char>),
}

/// Mathematical model of [`Output`], slot by slot.
pub ghost struct OutputModel {
    pub normal: Symbol,
    pub shift: Symbol,
    pub altgr_normal: Symbol,
    pub altgr_shift: Symbol,
}

impl View for CharOrDead {
    type V = Symbol;

    open spec fn view(&self) -> Symbol {
        match self {
            CharOrDead::Literal(c) => Symbol::Literal(*c),
            CharOrDead::DeadKey(s) => Symbol::DeadKey(s@),
        }
    }
}

impl View for Output {
    type V = OutputModel;

    open spec fn view(&self) -> OutputModel {
        OutputModel {
            normal: self.normal.normal@,
            shift: self.normal.shift@,
            altgr_normal: self.altgr.normal@,
            altgr_shift: self.altgr.shift@,
        }
    }
}

impl CharOrDead {
    /// A copy with the same model.
    pub fn duplicate(&self) -> (r: CharOrDead)
        ensures
            r@ == self@,
    {
        match self {
            CharOrDead::Literal(c) => CharOrDead::Literal(*c),
            CharOrDead::DeadKey(s) => CharOrDead::DeadKey(s.clone()),
        }
    }

    /// Strict equality of the two symbols.
    pub fn same_as(&self, other: &CharOrDead) -> (r: bool)
        ensures
            r == (self@ == other@),
    {
        match (self, other) {
            (CharOrDead::Literal(a), CharOrDead::Literal(b)) => *a == *b,
            (CharOrDead::DeadKey(a), CharOrDead::DeadKey(b)) => a.eq(b),
            _ => false,
        }
    }
}

impl Character {
    /// A copy with the same two symbols.
    pub fn duplicate(&self) -> (r: Character)
        ensures
            r.normal@ == self.normal@,
            r.shift@ == self.shift@,
    {
        Character { normal: self.normal.duplicate(), shift: self.shift.duplicate() }
    }
}

impl Output {
    /// A copy with the same model.
    pub fn duplicate(&self) -> (r: Output)
        ensures
            r@ == self@,
    {
        Output { normal: self.normal.duplicate(), altgr: self.altgr.duplicate() }
    }

    /// Strict equality of all four slots; no superset reasoning.
    pub fn same_as(&self, other: &Output) -> (r: bool)
        ensures
            r == (self@ == other@),
    {
        self.normal.normal.same_as(&other.normal.normal) && self.normal.shift.same_as(
            &other.normal.shift,
        ) && self.altgr.normal.same_as(&other.altgr.normal) && self.altgr.shift.same_as(
            &other.altgr.shift,
        )
    }
}

} // verus!
