//! The normalizer: collapses every maximal run of ASCII space characters in a
//! file-sourced corpus into a single space. Other whitespace is untouched, and
//! text supplied directly by a caller is never normalized.

use vstd::prelude::*;
use vstd::string::*;

verus! {

/// The text from position `i` on, with space runs collapsed; `prev_space`
/// records whether the character just before position `i` was a space that
/// has already been emitted.
pub open spec fn collapse_from(s: Seq<char>, i: int, prev_space: bool) -> Seq<char>
    decreases s.len() - i,
{
    if i < 0 || i >= s.len() {
        Seq::empty()
    } else if s[i] == ' ' {
        if prev_space {
            collapse_from(s, i + 1, true)
        } else {
            seq![' '] + collapse_from(s, i + 1, true)
        }
    } else {
        seq![s[i]] + collapse_from(s, i + 1, false)
    }
}

/// The whole text with every maximal run of one-or-more spaces replaced by a
/// single space.
pub open spec fn normalized(s: Seq<char>) -> Seq<char> {
    collapse_from(s, 0, false)
}

proof fn lemma_collapse_from_drop_first(s: Seq<char>, i: int, prev_space: bool)
    requires
        1 <= i <= s.len(),
    ensures
        collapse_from(s, i, prev_space) == collapse_from(s.drop_first(), i - 1, prev_space),
    decreases s.len() - i,
{
    if i < s.len() {
        assert(s.drop_first()[i - 1] == s[i]);
        if s[i] == ' ' {
            lemma_collapse_from_drop_first(s, i + 1, true);
        } else {
            lemma_collapse_from_drop_first(s, i + 1, false);
        }
    }
}

proof fn lemma_collapse_from_skip(s: Seq<char>, i: int, prev_space: bool)
    requires
        0 <= i <= s.len(),
    ensures
        collapse_from(s, i, prev_space) == collapse_from(s.skip(i), 0, prev_space),
    decreases i,
{
    if i == 0 {
        assert(s.skip(0) =~= s);
    } else {
        lemma_collapse_from_drop_first(s, i, prev_space);
        lemma_collapse_from_skip(s.drop_first(), i - 1, prev_space);
        assert(s.drop_first().skip(i - 1) =~= s.skip(i));
    }
}

proof fn lemma_collapse_from_idempotent(s: Seq<char>, i: int, prev_space: bool)
    ensures
        collapse_from(collapse_from(s, i, prev_space), 0, prev_space) == collapse_from(
            s,
            i,
            prev_space,
        ),
    decreases s.len() - i,
{
    if i < 0 || i >= s.len() {
    } else if s[i] == ' ' {
        lemma_collapse_from_idempotent(s, i + 1, true);
        if !prev_space {
            let t = collapse_from(s, i, false);
            let u = collapse_from(s, i + 1, true);
            assert(t == seq![' '] + u);
            assert(t[0] == ' ');
            lemma_collapse_from_skip(t, 1, true);
            assert(t.skip(1) =~= u);
        }
    } else {
        lemma_collapse_from_idempotent(s, i + 1, false);
        let t = collapse_from(s, i, prev_space);
        let u = collapse_from(s, i + 1, false);
        assert(t == seq![s[i]] + u);
        assert(t[0] == s[i]);
        lemma_collapse_from_skip(t, 1, false);
        assert(t.skip(1) =~= u);
    }
}

/// Normalization is idempotent: normalizing an already-normalized text
/// changes nothing, so a loaded corpus is normalized exactly once.
pub proof fn lemma_normalized_idempotent(s: Seq<char>)
    ensures
        normalized(normalized(s)) == normalized(s),
{
    lemma_collapse_from_idempotent(s, 0, false);
}

/// Relies on `String::push`: appends the given character to the end of the
/// string.
#[verifier::external_body]
fn push_char(s: &mut String, c: char)
    ensures
        final(s)@ == old(s)@.push(c),
{
    s.push(c);
}

/// Replaces every maximal run of space characters in `raw` with a single
/// space; all other characters, tabs and newlines included, pass through
/// unchanged.
pub fn normalize(raw: &str) -> (r: String)
    ensures
        r@ == normalized(raw@),
{
    let n = raw.unicode_len();
    let mut out = String::new();
    let mut prev_space = false;
    let mut i: usize = 0;
    proof {
        assert(out@ + collapse_from(raw@, 0, false) =~= collapse_from(raw@, 0, false));
    }
    while i < n
        invariant
            n == raw@.len(),
            i <= n,
            normalized(raw@) == out@ + collapse_from(raw@, i as int, prev_space),
        decreases n - i,
    {
        let c = raw.get_char(i);
        let ghost out_before = out@;
        if c == ' ' {
            if !prev_space {
                push_char(&mut out, ' ');
                proof {
                    assert(out@ + collapse_from(raw@, i + 1, true) =~= out_before
                        + collapse_from(raw@, i as int, false));
                }
            }
            prev_space = true;
        } else {
            push_char(&mut out, c);
            proof {
                assert(out@ + collapse_from(raw@, i + 1, false) =~= out_before + collapse_from(
                    raw@,
                    i as int,
                    prev_space,
                ));
            }
            prev_space = false;
        }
        i = i + 1;
    }
    proof {
        assert(out@ + collapse_from(raw@, n as int, prev_space) =~= out@);
    }
    out
}

} // verus!
