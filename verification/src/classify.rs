//! Splitting one raw history line into its command token.
//!
//! A line is split on spaces; the command is the first token that is
//! non-empty and is not a variable assignment (a token containing `=`).
//! Pipelines, conjunctions and line continuations are not interpreted:
//! such a line is treated as one opaque invocation.

use vstd::prelude::*;

verus! {

/// Index of the first space in `s`, or `s.len()` when `s` has no space.
pub open spec fn first_space(s: Seq<char>) -> nat
    decreases s.len(),
{
    if s.len() == 0 {
        0
    } else if s[0] == ' ' {
        0
    } else {
        1 + first_space(s.drop_first())
    }
}

pub proof fn lemma_first_space_bounds(s: Seq<char>)
    ensures
        first_space(s) <= s.len(),
        forall|k: int| 0 <= k < first_space(s) ==> s[k] != ' ',
        first_space(s) < s.len() ==> s[first_space(s) as int] == ' ',
    decreases s.len(),
{
    if s.len() == 0 {
    } else if s[0] == ' ' {
    } else {
        lemma_first_space_bounds(s.drop_first());
        assert(forall|k: int| 0 <= k < first_space(s.drop_first()) ==> s.drop_first()[k] != ' ');
        assert(forall|k: int| 1 <= k < first_space(s) ==> s[k] == s.drop_first()[k - 1]);
    }
}

/// `first_space` is where a left-to-right scan stops: no space before `k`,
/// and `k` is either the end of the line or a space.
pub proof fn lemma_first_space_at(s: Seq<char>, k: int)
    requires
        0 <= k <= s.len(),
        forall|m: int| 0 <= m < k ==> s[m] != ' ',
        k == s.len() || s[k] == ' ',
    ensures
        first_space(s) == k,
    decreases s.len(),
{
    if s.len() == 0 {
    } else if s[0] == ' ' {
        assert(k == 0);
    } else {
        assert(k >= 1);
        assert(forall|m: int| 0 <= m < k - 1 ==> s.drop_first()[m] == s[m + 1]);
        lemma_first_space_at(s.drop_first(), k - 1);
    }
}

/// The command token of one raw history line: the first space-delimited
/// token that is non-empty and contains no `=`, or nothing when every
/// token is empty or an assignment.
pub open spec fn command_of(s: Seq<char>) -> Option<Seq<char>>
    decreases s.len(),
{
    let i = first_space(s) as int;
    let tok = s.take(i);
    if 0 <= i <= s.len() && tok.len() > 0 && !tok.contains('=') {
        Some(tok)
    } else if i < s.len() {
        command_of(s.skip(i + 1))
    } else {
        None
    }
}

/// Whether two string slices hold the same characters.
pub fn str_eq(a: &str, b: &str) -> (r: bool)
    ensures
        r == (a@ == b@),
{
    let an = a.unicode_len();
    let bn = b.unicode_len();
    if an != bn {
        return false;
    }
    let mut i: usize = 0;
    while i < an
        invariant
            i <= an,
            an == a@.len(),
            an == b@.len(),
            forall|k: int| 0 <= k < i ==> a@[k] == b@[k],
        decreases an - i,
    {
        if a.get_char(i) != b.get_char(i) {
            return false;
        }
        i += 1;
    }
    proof {
        assert(a@ =~= b@);
    }
    true
}

/// The command token of `line`, as `command_of` describes it.
pub fn command_of_line(line: &str) -> (r: Option<String>)
    ensures
        match r {
            Some(c) => command_of(line@) == Some(c@),
            None => command_of(line@) is None,
        },
{
    let n = line.unicode_len();
    let mut i: usize = 0;
    proof {
        assert(line@.skip(0) =~= line@);
    }
    loop
        invariant
            i <= n,
            n == line@.len(),
            command_of(line@) == command_of(line@.skip(i as int)),
        decreases n - i,
    {
        let ghost sub = line@.skip(i as int);
        let mut j = i;
        let mut has_eq = false;
        while j < n && line.get_char(j) != ' '
            invariant
                i <= j <= n,
                n == line@.len(),
                forall|k: int| i <= k < j ==> line@[k] != ' ',
                has_eq == exists|k: int| i <= k < j && line@[k] == '=',
            decreases n - j,
        {
            if line.get_char(j) == '=' {
                proof {
                    assert(i <= j < j + 1 && line@[j as int] == '=');
                }
                has_eq = true;
            } else {
                proof {
                    if exists|k: int| i <= k < j + 1 && line@[k] == '=' {
                        let k = choose|k: int| i <= k < j + 1 && line@[k] == '=';
                        assert(k < j);
                    }
                }
            }
            j += 1;
        }
        proof {
            assert(forall|m: int| 0 <= m < j - i ==> sub[m] == line@[i + m] && sub[m] != ' ');
            assert(j == n || sub[j - i] == ' ');
            lemma_first_space_at(sub, j - i);
        }
        let ghost tok = sub.take(j - i);
        proof {
            assert(forall|m: int| 0 <= m < j - i ==> tok[m] == line@[i + m]);
        }
        if j > i && !has_eq {
            proof {
                assert(!tok.contains('=')) by {
                    if tok.contains('=') {
                        let m = choose|m: int| 0 <= m < tok.len() && tok[m] == '=';
                        assert(i <= i + m < j && line@[i + m] == '=');
                    }
                }
                assert(command_of(sub) == Some(tok));
                assert(tok =~= line@.subrange(i as int, j as int));
            }
            let s = line.substring_char(i, j);
            return Some(String::from_str(s));
        }
        // the token is empty or an assignment: it is skipped
        proof {
            if has_eq {
                let k = choose|k: int| i <= k < j && line@[k] == '=';
                assert(tok[k - i] == '=');
                assert(tok.contains('='));
            }
        }
        if j == n {
            proof {
                assert(first_space(sub) == sub.len());
                assert(command_of(sub) is None);
            }
            return None;
        }
        proof {
            assert(command_of(sub) == command_of(sub.skip(j - i + 1)));
            assert(sub.skip(j - i + 1) =~= line@.skip(j + 1));
        }
        i = j + 1;
    }
}

} // verus!
