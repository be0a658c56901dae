use vstd::prelude::*;
use vstd::string::StringExecFns;
use crate::output::{CharOrDead, Symbol};

verus! {

/// What `str::trim` leaves of a text.
pub uninterp spec fn trimmed(s: Seq<char>) -> Seq<char>;

/// Relies on `str::trim`: the text without leading and trailing white space,
/// a function of the text alone; an empty text stays empty.
#[verifier::external_body]
fn trim_text(s: &str) -> (r: String)
    ensures
        r@ == trimmed(s@),
        s@.len() == 0 ==> r@.len() == 0,
{
    s.trim().to_owned()
}

/// The namespace prefix of XKB dead-key names.
pub open spec fn dead_prefix() -> Seq<char> {
    seq!['d', 'e', 'a', 'd', '_']
}

/// Whether `c` is one of the dead-key trigger characters.
pub fn is_trigger(c: char, triggers: &Vec<char>) -> (r: bool)
    ensures
        r == triggers@.contains(c),
{
    let mut i: usize = 0;
    while i < triggers.len()
        invariant
            0 <= i <= triggers.len(),
            forall|j: int| 0 <= j < i ==> triggers@[j] != c,
        decreases triggers.len() - i,
    {
        if triggers[i] == c {
            return true;
        }
        i = i + 1;
    }
    false
}

/// The symbol a character becomes, given the operator's trimmed answer
/// (consulted only for trigger characters).
pub open spec fn classified(c: char, triggers: Seq<char>, answer: Seq<char>) -> Symbol {
    if triggers.contains(c) && answer.len() > 0 {
        Symbol::DeadKey(dead_prefix() + answer)
    } else {
        Symbol::Literal(c)
    }
}

/// Classifies `c` from an already trimmed answer: a character that is no
/// trigger, or an empty answer, gives the literal; otherwise the dead key
/// named `dead_` followed by the answer.
pub fn classify_trimmed(c: char, triggers: &Vec<char>, answer: &str) -> (r: CharOrDead)
    ensures
        r@ == classified(c, triggers@, answer@),
{
    if is_trigger(c, triggers) && answer.unicode_len() > 0 {
        let name = String::from_str("dead_").concat(answer);
        proof {
            reveal_strlit("dead_");
            assert(name@ =~= dead_prefix() + answer@);
        }
        CharOrDead::DeadKey(name)
    } else {
        CharOrDead::Literal(c)
    }
}

/// Classifies `c` from the operator's raw answer, trimmed first; a
/// white-space-only answer means "not a dead key".
pub fn classify(c: char, triggers: &Vec<char>, answer: &str) -> (r: CharOrDead)
    ensures
        r@ == classified(c, triggers@, trimmed(answer@)),
        !triggers@.contains(c) ==> r@ == Symbol::Literal(c),
{
    let t = trim_text(answer);
    classify_trimmed(c, triggers, t.as_str())
}

/// A character that is no trigger always stays literal; a trigger stays
/// literal on an empty answer and otherwise becomes the dead key named by
/// the `dead_` prefix and the exact answer.
pub proof fn law_dead_key_round_trip(c: char, triggers: Seq<char>, answer: Seq<char>)
    ensures
        !triggers.contains(c) ==> classified(c, triggers, answer) == Symbol::Literal(c),
        triggers.contains(c) && answer.len() == 0 ==> classified(c, triggers, answer) == Symbol::Literal(c),
        triggers.contains(c) && answer.len() > 0 ==> classified(c, triggers, answer) == Symbol::DeadKey(dead_prefix() + answer),
{
}

} // verus!
