//! Whether the brackets of a text are balanced: every `(`, `[` and `{` is
//! closed by its own kind, innermost first; other characters do not count.
use vstd::prelude::*;
use vstd::string::StrSliceExecFns;

verus! {

/// The closer that an opening bracket asks for.
pub open spec fn closer_of(c: char) -> Option<char> {
    if c == '(' {
        Some(')')
    } else if c == '[' {
        Some(']')
    } else if c == '{' {
        Some('}')
    } else {
        None
    }
}

pub open spec fn is_closer(c: char) -> bool {
    c == ')' || c == ']' || c == '}'
}

/// The closers still owed, innermost last, after reading `s` when `owed`
/// were owed before; `None` once a closer comes that is not the one owed.
pub open spec fn owed_after(s: Seq<char>, owed: Seq<char>) -> Option<Seq<char>>
    decreases s.len(),
{
    if s.len() == 0 {
        Some(owed)
    } else {
        let c = s[0];
        let rest = s.drop_first();
        match closer_of(c) {
            Some(d) => owed_after(rest, owed.push(d)),
            None => if !is_closer(c) {
                owed_after(rest, owed)
            } else if owed.len() > 0 && owed.last() == c {
                owed_after(rest, owed.drop_last())
            } else {
                None
            },
        }
    }
}

/// The brackets of `s` are balanced.
pub open spec fn balanced(s: Seq<char>) -> bool {
    owed_after(s, Seq::empty()) == Some(Seq::<char>::empty())
}

fn closer(c: char) -> (r: Option<char>)
    ensures
        r == closer_of(c),
{
    if c == '(' {
        Some(')')
    } else if c == '[' {
        Some(']')
    } else if c == '{' {
        Some('}')
    } else {
        None
    }
}

pub fn valid_braces(s: &str) -> (r: bool)
    ensures
        r == balanced(s@),
{
    let n = s.unicode_len();
    let mut stack: Vec<char> = Vec::new();
    let mut i: usize = 0;
    assert(s@.subrange(0, n as int) == s@);
    while i < n
        invariant
            n == s@.len(),
            i <= n,
            owed_after(s@, Seq::empty()) == owed_after(s@.subrange(i as int, n as int), stack@),
        decreases n - i,
    {
        let c = s.get_char(i);
        assert(s@.subrange(i as int, n as int).drop_first() == s@.subrange(i + 1, n as int));
        match closer(c) {
            Some(d) => {
                stack.push(d);
            },
            None => {
                if c == ')' || c == ']' || c == '}' {
                    if stack.len() > 0 && stack[stack.len() - 1] == c {
                        stack.pop();
                    } else {
                        return false;
                    }
                }
            },
        }
        i = i + 1;
    }
    assert(s@.subrange(n as int, n as int) =~= Seq::<char>::empty());
    assert(stack@.len() == 0 ==> stack@ =~= Seq::<char>::empty());
    stack.len() == 0
}

} // verus!
