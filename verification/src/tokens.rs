//! Splitting an input line into whitespace-delimited tokens.

use vstd::prelude::*;
use vstd::string::StrSliceExecFns;
use vstd::string::StringExecFns;

verus! {

/// A whitespace character: one of the separators that split a line into tokens.
pub open spec fn is_space_char(c: char) -> bool {
    c == ' ' || c == '\t' || c == '\n' || c == '\r'
}

/// The tokens contributed by positions `i..` of `s`, given that the characters
/// of the token currently being read are `cur`.
pub open spec fn tokens_acc(s: Seq<char>, i: int, cur: Seq<char>) -> Seq<Seq<char>>
    decreases s.len() - i,
{
    if i < 0 || i >= s.len() {
        if cur.len() == 0 {
            Seq::empty()
        } else {
            seq![cur]
        }
    } else if is_space_char(s[i]) {
        if cur.len() == 0 {
            tokens_acc(s, i + 1, Seq::empty())
        } else {
            seq![cur] + tokens_acc(s, i + 1, Seq::empty())
        }
    } else {
        tokens_acc(s, i + 1, cur.push(s[i]))
    }
}

/// The whitespace-delimited tokens of a line, in order.
pub open spec fn tokens_of(s: Seq<char>) -> Seq<Seq<char>> {
    tokens_acc(s, 0, Seq::empty())
}

/// A well-formed token: non-empty and free of whitespace.
pub open spec fn token_wf(t: Seq<char>) -> bool {
    &&& t.len() > 0
    &&& forall|j: int| 0 <= j < t.len() ==> !is_space_char(#[trigger] t[j])
}

/// Every token of the sequence is well-formed.
pub open spec fn tokens_wf(ts: Seq<Seq<char>>) -> bool {
    forall|i: int| 0 <= i < ts.len() ==> token_wf(#[trigger] ts[i])
}

/// Tokenization only produces well-formed tokens.
pub proof fn lemma_tokens_acc_wf(s: Seq<char>, i: int, cur: Seq<char>)
    requires
        forall|j: int| 0 <= j < cur.len() ==> !is_space_char(#[trigger] cur[j]),
    ensures
        tokens_wf(tokens_acc(s, i, cur)),
    decreases s.len() - i,
{
    if i < 0 || i >= s.len() {
    } else if is_space_char(s[i]) {
        lemma_tokens_acc_wf(s, i + 1, Seq::empty());
    } else {
        let cur2 = cur.push(s[i]);
        assert(forall|j: int| 0 <= j < cur2.len() ==> !is_space_char(#[trigger] cur2[j]));
        lemma_tokens_acc_wf(s, i + 1, cur2);
    }
}

/// The tokens of any line are all well-formed.
pub proof fn lemma_tokens_of_wf(s: Seq<char>)
    ensures
        tokens_wf(tokens_of(s)),
{
    lemma_tokens_acc_wf(s, 0, Seq::empty());
}

fn is_space(c: char) -> (r: bool)
    ensures
        r == is_space_char(c),
{
    c == ' ' || c == '\t' || c == '\n' || c == '\r'
}

/// Character-for-character string comparison.
pub fn str_eq(a: &str, b: &str) -> (r: bool)
    ensures
        r == (a@ == b@),
{
    let na = a.unicode_len();
    let nb = b.unicode_len();
    if na != nb {
        return false;
    }
    let mut i: usize = 0;
    while i < na
        invariant
            na == a@.len(),
            na == b@.len(),
            i <= na,
            forall|j: int| 0 <= j < i ==> a@[j] == b@[j],
        decreases na - i,
    {
        if a.get_char(i) != b.get_char(i) {
            return false;
        }
        i = i + 1;
    }
    proof {
        assert(a@ =~= b@);
    }
    true
}

/// Splits `s` at whitespace into its tokens.
pub fn tokenize(s: &str) -> (r: Vec<String>)
    ensures
        r.deep_view() == tokens_of(s@),
        tokens_wf(r.deep_view()),
{
    let n = s.unicode_len();
    let mut r: Vec<String> = Vec::new();
    let mut start: usize = 0;
    let mut i: usize = 0;
    proof {
        assert(s@.subrange(0, 0) =~= Seq::<char>::empty());
        assert(r.deep_view() + tokens_acc(s@, 0, Seq::empty()) =~= tokens_of(s@));
    }
    while i < n
        invariant
            n == s@.len(),
            start <= i <= n,
            tokens_of(s@) == r.deep_view() + tokens_acc(
                s@,
                i as int,
                s@.subrange(start as int, i as int),
            ),
        decreases n - i,
    {
        let ghost cur = s@.subrange(start as int, i as int);
        let c = s.get_char(i);
        if is_space(c) {
            if start < i {
                let tok = String::from_str(s.substring_char(start, i));
                let ghost prev = r.deep_view();
                r.push(tok);
                proof {
                    assert(r.deep_view() =~= prev.push(cur));
                    assert(prev + tokens_acc(s@, i as int, cur) =~= r.deep_view() + tokens_acc(
                        s@,
                        i + 1,
                        Seq::empty(),
                    ));
                }
            }
            start = i + 1;
            proof {
                assert(s@.subrange(start as int, i + 1) =~= Seq::<char>::empty());
            }
        } else {
            proof {
                assert(cur.push(s@[i as int]) =~= s@.subrange(start as int, i + 1));
            }
        }
        i = i + 1;
    }
    let ghost cur = s@.subrange(start as int, i as int);
    if start < n {
        let tok = String::from_str(s.substring_char(start, n));
        let ghost prev = r.deep_view();
        r.push(tok);
        proof {
            assert(r.deep_view() =~= prev.push(cur));
            assert(prev + tokens_acc(s@, n as int, cur) =~= r.deep_view());
        }
    } else {
        proof {
            assert(r.deep_view() + tokens_acc(s@, n as int, cur) =~= r.deep_view());
        }
    }
    proof {
        lemma_tokens_of_wf(s@);
    }
    r
}

} // verus!
