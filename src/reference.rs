use vstd::prelude::*;
use vstd::string::StrSliceExecFns;

verus! {

/// Position of the first `'('` in `s` at or after `i`, or `s.len()` if none.
pub open spec fn open_paren_from(s: Seq<char>, i: int) -> int
    decreases s.len() - i,
{
    if i < 0 || i >= s.len() {
        s.len() as int
    } else if s[i] == '(' {
        i
    } else {
        open_paren_from(s, i + 1)
    }
}

/// The part name used when a reference names a file alone.
pub open spec fn default_part() -> Seq<char> {
    seq!['b', 'a', 's', 'i', 'c']
}

/// The `(path, part)` that a reference `path` or `path(part)` stands for: the
/// path runs up to the first `'('`, the part from after it up to the last
/// character, which is taken to be the closing `')'`.
pub open spec fn reference_parts(s: Seq<char>) -> (Seq<char>, Seq<char>) {
    let p = open_paren_from(s, 0);
    if p < s.len() {
        let end = if p + 1 <= s.len() - 1 { s.len() - 1 } else { p + 1 };
        (s.subrange(0, p), s.subrange(p + 1, end))
    } else {
        (s, default_part())
    }
}

/// With no `'('` from position `i` up to `stop`, the first one at or
/// after `i` is the first one at or after `stop`.
proof fn lemma_no_paren_before(s: Seq<char>, i: int, stop: int)
    requires
        0 <= i <= stop <= s.len(),
        forall|j: int| i <= j < stop ==> s[j] != '(',
    ensures
        open_paren_from(s, i) == open_paren_from(s, stop),
    decreases stop - i,
{
    if i < stop {
        lemma_no_paren_before(s, i + 1, stop);
    }
}

/// The reference grammar: a path without `'('` names its `basic` part, and
/// `path(part)` names `part` of `path`.
pub proof fn law_reference_grammar(path: Seq<char>, part: Seq<char>)
    requires
        !path.contains('('),
    ensures
        reference_parts(path) == (path, default_part()),
        reference_parts(path + seq!['('] + part + seq![')']) == (path, part),
{
    lemma_no_paren_before(path, 0, path.len() as int);
    let s = path + seq!['('] + part + seq![')'];
    assert forall|j: int| 0 <= j < path.len() implies s[j] != '(' by {
        assert(s[j] == path[j]);
    }
    lemma_no_paren_before(s, 0, path.len() as int);
    assert(s.subrange(0, path.len() as int) =~= path);
    assert(s.subrange(path.len() as int + 1, s.len() as int - 1) =~= part);
}

/// Splits a partial reference into the file path and the part name;
/// a bare path names its part `basic`.
pub fn split_reference(s: &str) -> (r: (&str, &str))
    ensures
        (r.0@, r.1@) == reference_parts(s@),
{
    let n = s.unicode_len();
    let mut i: usize = 0;
    while i < n
        invariant
            n == s@.len(),
            0 <= i <= n,
            open_paren_from(s@, 0) == open_paren_from(s@, i as int),
        decreases n - i,
    {
        if s.get_char(i) == '(' {
            let end: usize = if i + 1 <= n - 1 { n - 1 } else { i + 1 };
            return (s.substring_char(0, i), s.substring_char(i + 1, end));
        }
        i = i + 1;
    }
    let basic = "basic";
    proof {
        reveal_strlit("basic");
        assert(basic@ =~= default_part());
    }
    (s, basic)
}

} // verus!
