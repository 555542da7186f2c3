//! The reading of one variable-definition line, `name = value`. The
//! interactive front end collects lines until a blank one and binds each
//! well-formed definition; this module holds the part that decides what a
//! line means.

use vstd::prelude::*;

use crate::grammar::is_space;
use crate::grammar::space_char;
use crate::grammar::strip_spaces;

verus! {

/// What one variable-definition line means.
#[derive(Clone, Copy, Debug, PartialEq, Eq, Structural)]
pub enum DefLine {
    /// A blank line: the definition phase is over.
    End,
    /// `name=value`: bind the variable to the boolean.
    Bind(char, bool),
    /// Not exactly one `=` in the line.
    BadSyntax,
    /// Nothing stands left of the `=`.
    NoName,
    /// More than one character stands left of the `=`.
    LongName,
    /// What stands right of the `=` is neither `true` nor `false`.
    BadValue,
}

/// How many times `c` occurs in `s`.
pub open spec fn count_char(s: Seq<char>, c: char) -> int
    decreases s.len(),
{
    if s.len() == 0 {
        0
    } else {
        (if s[0] == c {
            1int
        } else {
            0int
        }) + count_char(s.drop_first(), c)
    }
}

/// The position of the first `=` in `s`.
pub open spec fn eq_position(s: Seq<char>) -> int
    decreases s.len(),
{
    if s.len() == 0 {
        0
    } else if s[0] == '=' {
        0
    } else {
        1 + eq_position(s.drop_first())
    }
}

/// What `parse_definition` returns: whitespace is stripped everywhere; a
/// blank line ends the definition phase; otherwise the line must hold
/// exactly one `=`, a single-character name to its left, and `true` or
/// `false` to its right.
pub open spec fn spec_parse_definition(line: Seq<char>) -> DefLine {
    let t = strip_spaces(line);
    if t.len() == 0 {
        DefLine::End
    } else if count_char(t, '=') != 1 {
        DefLine::BadSyntax
    } else {
        let k = eq_position(t);
        let value = t.skip(k + 1);
        if k == 0 {
            DefLine::NoName
        } else if k > 1 {
            DefLine::LongName
        } else if value == seq!['t', 'r', 'u', 'e'] {
            DefLine::Bind(t[0], true)
        } else if value == seq!['f', 'a', 'l', 's', 'e'] {
            DefLine::Bind(t[0], false)
        } else {
            DefLine::BadValue
        }
    }
}

proof fn lemma_eq_position(s: Seq<char>, k: int)
    requires
        0 <= k < s.len(),
        s[k] == '=',
        forall|m: int| 0 <= m < k ==> s[m] != '=',
    ensures
        eq_position(s) == k,
    decreases s.len(),
{
    if k > 0 {
        assert(s[0] != '=');
        assert(forall|m: int|
            0 <= m < s.drop_first().len() ==> (#[trigger] s.drop_first()[m]) == s[m + 1]);
        lemma_eq_position(s.drop_first(), k - 1);
    }
}

/// Read one variable-definition line. Whitespace is stripped everywhere; a
/// blank line means the definition phase is over; a well-formed line binds
/// its single-letter name to its boolean value; anything else names the
/// first fault found.
pub fn parse_definition(line: &str) -> (r: DefLine)
    ensures
        r == spec_parse_definition(line@),
{
    let n = line.unicode_len();
    let mut t: Vec<char> = Vec::new();
    let mut i: usize = 0;
    proof {
        assert(line@.skip(0) =~= line@);
        assert(Seq::<char>::empty() + strip_spaces(line@) =~= strip_spaces(line@));
    }
    while i < n
        invariant
            n == line@.len(),
            i <= n,
            t@ + strip_spaces(line@.skip(i as int)) == strip_spaces(line@),
        decreases n - i,
    {
        let c = line.get_char(i);
        proof {
            assert(line@.skip(i as int)[0] == c);
            assert(line@.skip(i as int).drop_first() =~= line@.skip(i as int + 1));
        }
        if !space_char(c) {
            let ghost prev = t@;
            t.push(c);
            proof {
                assert(strip_spaces(line@.skip(i as int)) == seq![c] + strip_spaces(
                    line@.skip(i as int + 1),
                ));
                assert(t@ + strip_spaces(line@.skip(i as int + 1)) =~= prev + strip_spaces(
                    line@.skip(i as int),
                ));
            }
        }
        i += 1;
    }
    proof {
        assert(line@.skip(n as int) =~= Seq::<char>::empty());
        assert(t@ + Seq::<char>::empty() =~= t@);
        assert(t@ == strip_spaces(line@));
    }
    if t.len() == 0 {
        return DefLine::End;
    }
    let mut count: usize = 0;
    let mut first: usize = 0;
    let mut j: usize = 0;
    proof {
        assert(t@.skip(0) =~= t@);
    }
    while j < t.len()
        invariant
            j <= t@.len(),
            count <= j,
            count as int + count_char(t@.skip(j as int), '=') == count_char(t@, '='),
            count == 0 ==> forall|m: int| 0 <= m < j ==> t@[m] != '=',
            count > 0 ==> first < j && t@[first as int] == '=' && (forall|m: int|
                0 <= m < first ==> t@[m] != '='),
        decreases t@.len() - j,
    {
        let c = t[j];
        proof {
            assert(t@.skip(j as int)[0] == c);
            assert(t@.skip(j as int).drop_first() =~= t@.skip(j as int + 1));
        }
        if c == '=' {
            if count == 0 {
                first = j;
            }
            count += 1;
        }
        j += 1;
    }
    proof {
        assert(t@.skip(t@.len() as int) =~= Seq::<char>::empty());
        assert(count as int == count_char(t@, '='));
    }
    if count != 1 {
        return DefLine::BadSyntax;
    }
    proof {
        lemma_eq_position(t@, first as int);
    }
    if first == 0 {
        return DefLine::NoName;
    }
    if first > 1 {
        return DefLine::LongName;
    }
    let name = t[0];
    let value_is_true = t.len() == 6 && t[2] == 't' && t[3] == 'r' && t[4] == 'u' && t[5] == 'e';
    let value_is_false = t.len() == 7 && t[2] == 'f' && t[3] == 'a' && t[4] == 'l' && t[5] == 's'
        && t[6] == 'e';
    proof {
        if value_is_true {
            assert(t@.skip(2) =~= seq!['t', 'r', 'u', 'e']);
        } else {
            assert(t@.skip(2) != seq!['t', 'r', 'u', 'e']) by {
                if t@.skip(2) == seq!['t', 'r', 'u', 'e'] {
                    assert(t@.skip(2).len() == 4);
                    assert(t@.skip(2)[0] == t@[2]);
                    assert(t@.skip(2)[1] == t@[3]);
                    assert(t@.skip(2)[2] == t@[4]);
                    assert(t@.skip(2)[3] == t@[5]);
                    assert(false);
                }
            };
        }
        if value_is_false {
            assert(t@.skip(2) =~= seq!['f', 'a', 'l', 's', 'e']);
        } else {
            assert(t@.skip(2) != seq!['f', 'a', 'l', 's', 'e']) by {
                if t@.skip(2) == seq!['f', 'a', 'l', 's', 'e'] {
                    assert(t@.skip(2).len() == 5);
                    assert(t@.skip(2)[0] == t@[2]);
                    assert(t@.skip(2)[1] == t@[3]);
                    assert(t@.skip(2)[2] == t@[4]);
                    assert(t@.skip(2)[3] == t@[5]);
                    assert(t@.skip(2)[4] == t@[6]);
                    assert(false);
                }
            };
        }
    }
    if value_is_true {
        return DefLine::Bind(name, true);
    }
    if value_is_false {
        return DefLine::Bind(name, false);
    }
    DefLine::BadValue
}

} // verus!
