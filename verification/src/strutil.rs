use vstd::prelude::*;

verus! {

/// The characters the tokenizer and the blank test treat as whitespace.
pub open spec fn is_space_char(c: char) -> bool {
    c == ' ' || c == '\t' || c == '\n' || c == '\r'
}

/// `p` is a prefix of `s`.
pub open spec fn is_prefix_of(p: Seq<char>, s: Seq<char>) -> bool {
    p.len() <= s.len() && s.take(p.len() as int) == p
}

/// Lexicographic order on character sequences by code point.
pub open spec fn lex_le(a: Seq<char>, b: Seq<char>) -> bool
    decreases a.len(),
{
    if a.len() == 0 {
        true
    } else if b.len() == 0 {
        false
    } else if (a[0] as u32) < (b[0] as u32) {
        true
    } else if (a[0] as u32) > (b[0] as u32) {
        false
    } else {
        lex_le(a.skip(1), b.skip(1))
    }
}

/// The lexicographic order is total: of two sequences, one comes no later
/// than the other.
pub proof fn lemma_lex_le_total(a: Seq<char>, b: Seq<char>)
    ensures
        lex_le(a, b) || lex_le(b, a),
    decreases a.len(),
{
    if a.len() == 0 || b.len() == 0 {
    } else if (a[0] as u32) == (b[0] as u32) {
        lemma_lex_le_total(a.skip(1), b.skip(1));
    }
}

/// Character equality, decided through the code points.
fn char_eq(a: char, b: char) -> (r: bool)
    ensures
        r == (a == b),
{
    a == b
}

/// String equality over the character views.
pub fn str_eq(a: &str, b: &str) -> (r: bool)
    ensures
        r == (a@ == b@),
{
    let la = a.unicode_len();
    let lb = b.unicode_len();
    if la != lb {
        assert(a@ != b@);
        return false;
    }
    let mut i: usize = 0;
    while i < la
        invariant
            la == a@.len(),
            la == b@.len(),
            i <= la,
            forall|j: int| 0 <= j < i ==> a@[j] == b@[j],
        decreases la - i,
    {
        if !char_eq(a.get_char(i), b.get_char(i)) {
            assert(a@ != b@);
            return false;
        }
        i += 1;
    }
    proof {
        assert(a@ =~= b@);
    }
    true
}

/// Whether `p@` is a prefix of `s@`.
pub fn starts_with(s: &str, p: &str) -> (r: bool)
    ensures
        r == is_prefix_of(p@, s@),
{
    let lp = p.unicode_len();
    let ls = s.unicode_len();
    if lp > ls {
        return false;
    }
    let mut i: usize = 0;
    while i < lp
        invariant
            lp == p@.len(),
            ls == s@.len(),
            lp <= ls,
            i <= lp,
            forall|j: int| 0 <= j < i ==> s@[j] == p@[j],
        decreases lp - i,
    {
        if !char_eq(s.get_char(i), p.get_char(i)) {
            assert(s@.take(lp as int)[i as int] != p@[i as int]);
            return false;
        }
        i += 1;
    }
    proof {
        assert(s@.take(lp as int) =~= p@);
    }
    true
}

/// Decides `lex_le(a@, b@)`.
pub fn str_le(a: &str, b: &str) -> (r: bool)
    ensures
        r == lex_le(a@, b@),
{
    let la = a.unicode_len();
    let lb = b.unicode_len();
    let mut i: usize = 0;
    proof {
        assert(a@.skip(0) =~= a@);
        assert(b@.skip(0) =~= b@);
    }
    loop
        invariant
            la == a@.len(),
            lb == b@.len(),
            i <= la,
            i <= lb,
            lex_le(a@, b@) == lex_le(a@.skip(i as int), b@.skip(i as int)),
            forall|j: int| 0 <= j < i ==> a@[j] == b@[j],
        decreases la - i,
    {
        if i >= la {
            assert(lex_le(a@.skip(i as int), b@.skip(i as int)));
            return true;
        }
        if i >= lb {
            assert(!lex_le(a@.skip(i as int), b@.skip(i as int)));
            return false;
        }
        let ca = a.get_char(i);
        let cb = b.get_char(i);
        if (ca as u32) < (cb as u32) {
            assert(lex_le(a@.skip(i as int), b@.skip(i as int)));
            return true;
        }
        if (ca as u32) > (cb as u32) {
            assert(!lex_le(a@.skip(i as int), b@.skip(i as int)));
            return false;
        }
        proof {
            assert((a@[i as int] as u32) == (b@[i as int] as u32));
            assert(a@[i as int] == b@[i as int]) by {
                char_u32_injective(a@[i as int], b@[i as int]);
            }
            assert(a@.skip(i as int).skip(1) =~= a@.skip(i + 1));
            assert(b@.skip(i as int).skip(1) =~= b@.skip(i + 1));
        }
        i += 1;
    }
}

/// Two characters with the same code point are the same character.
proof fn char_u32_injective(a: char, b: char)
    requires
        (a as u32) == (b as u32),
    ensures
        a == b,
{
}

/// The position of the last occurrence of `c` in `s@`, if any.
pub open spec fn last_index_of(s: Seq<char>, c: char) -> Option<int> {
    if exists|i: int| 0 <= i < s.len() && s[i] == c {
        let i = choose|i: int| 0 <= i < s.len() && s[i] == c && (forall|j: int|
            i < j < s.len() ==> s[j] != c);
        Some(i)
    } else {
        None
    }
}

/// Finds the last occurrence of `c` in `s`.
pub fn find_last(s: &str, c: char) -> (r: Option<usize>)
    ensures
        match r {
            Some(i) => {
                &&& 0 <= i < s@.len()
                &&& s@[i as int] == c
                &&& forall|j: int| i < j < s@.len() ==> s@[j] != c
            },
            None => forall|j: int| 0 <= j < s@.len() ==> s@[j] != c,
        },
{
    let n = s.unicode_len();
    let mut i: usize = n;
    while i > 0
        invariant
            n == s@.len(),
            i <= n,
            forall|j: int| i <= j < n ==> s@[j] != c,
        decreases i,
    {
        i -= 1;
        if char_eq(s.get_char(i), c) {
            return Some(i);
        }
    }
    None
}

/// A position that holds `c` with none after it is the last occurrence.
pub proof fn lemma_last_index_some(s: Seq<char>, c: char, i: int)
    requires
        0 <= i < s.len(),
        s[i] == c,
        forall|j: int| i < j < s.len() ==> s[j] != c,
    ensures
        last_index_of(s, c) == Some(i),
{
    assert(exists|k: int| 0 <= k < s.len() && s[k] == c);
    let k = choose|k: int|
        0 <= k < s.len() && s[k] == c && (forall|j: int| k < j < s.len() ==> s[j] != c);
    assert(0 <= i < s.len() && s[i] == c && (forall|j: int| i < j < s.len() ==> s[j] != c));
    if k < i {
        assert(s[i] != c);
        assert(false);
    }
    if k > i {
        assert(s[k] != c);
        assert(false);
    }
}

/// With no occurrence of `c`, there is no last occurrence.
pub proof fn lemma_last_index_none(s: Seq<char>, c: char)
    requires
        forall|j: int| 0 <= j < s.len() ==> s[j] != c,
    ensures
        last_index_of(s, c) is None,
{
}

/// Whether every character of `s@` is whitespace.
pub open spec fn all_space(s: Seq<char>) -> bool {
    forall|i: int| 0 <= i < s.len() ==> is_space_char(s[i])
}

/// Whether the string is empty after trimming surrounding whitespace.
pub fn is_blank(s: &str) -> (r: bool)
    ensures
        r == all_space(s@),
{
    let n = s.unicode_len();
    let mut i: usize = 0;
    while i < n
        invariant
            n == s@.len(),
            i <= n,
            forall|j: int| 0 <= j < i ==> is_space_char(s@[j]),
        decreases n - i,
    {
        let c = s.get_char(i);
        if !(c == ' ' || c == '\t' || c == '\n' || c == '\r') {
            return false;
        }
        i += 1;
    }
    true
}

/// Relies on `String::push`: appends exactly the given character at the end.
#[verifier::external_body]
pub(crate) fn push_char(s: &mut String, c: char)
    ensures
        final(s)@ == old(s)@.push(c),
{
    s.push(c);
}

/// The whitespace-delimited tokens of `s` from position `i` on, with `cur`
/// the partial token read so far: whitespace closes the partial token, any
/// other character extends it.
pub open spec fn tokens_acc(s: Seq<char>, i: int, cur: Seq<char>) -> Seq<Seq<char>>
    decreases s.len() - i,
{
    if i >= s.len() {
        if cur.len() == 0 {
            seq![]
        } else {
            seq![cur]
        }
    } else if is_space_char(s[i]) {
        if cur.len() == 0 {
            tokens_acc(s, i + 1, seq![])
        } else {
            seq![cur] + tokens_acc(s, i + 1, seq![])
        }
    } else {
        tokens_acc(s, i + 1, cur.push(s[i]))
    }
}

/// The whitespace-delimited tokens of `s`, in order, none of them empty.
pub open spec fn tokens_of(s: Seq<char>) -> Seq<Seq<char>> {
    tokens_acc(s, 0, seq![])
}

/// Splits `s` into its whitespace-delimited tokens.
pub fn tokenize(s: &str) -> (r: Vec<String>)
    ensures
        r.deep_view() == tokens_of(s@),
{
    let n = s.unicode_len();
    let mut out: Vec<String> = Vec::new();
    let mut cur = String::new();
    let mut i: usize = 0;
    while i < n
        invariant
            n == s@.len(),
            i <= n,
            tokens_of(s@) =~= out.deep_view() + tokens_acc(s@, i as int, cur@),
        decreases n - i,
    {
        let c = s.get_char(i);
        let ghost pre = out.deep_view();
        let ghost curv = cur@;
        if c == ' ' || c == '\t' || c == '\n' || c == '\r' {
            if !cur.as_str().is_empty() {
                out.push(cur);
                cur = String::new();
                proof {
                    assert(out.deep_view() =~= pre.push(curv));
                    assert(cur@ =~= Seq::<char>::empty());
                    assert(tokens_acc(s@, i as int, curv) =~= seq![curv] + tokens_acc(
                        s@,
                        i as int + 1,
                        seq![],
                    ));
                    assert(tokens_acc(s@, i as int + 1, cur@) == tokens_acc(
                        s@,
                        i as int + 1,
                        seq![],
                    ));
                    assert(out.deep_view() + tokens_acc(s@, i as int + 1, cur@) =~= pre + (
                    seq![curv] + tokens_acc(s@, i as int + 1, seq![])));
                }
            } else {
                proof {
                    assert(curv =~= Seq::<char>::empty());
                    assert(tokens_acc(s@, i as int, curv) == tokens_acc(s@, i as int + 1, seq![]));
                }
            }
        } else {
            push_char(&mut cur, c);
            proof {
                assert(cur@ == curv.push(s@[i as int]));
                assert(tokens_acc(s@, i as int, curv) == tokens_acc(s@, i as int + 1, cur@));
            }
        }
        i += 1;
    }
    if !cur.as_str().is_empty() {
        let ghost pre = out.deep_view();
        let ghost curv = cur@;
        out.push(cur);
        proof {
            assert(out.deep_view() =~= pre.push(curv));
        }
    }
    proof {
        assert(out.deep_view() =~= tokens_of(s@));
    }
    out
}

/// `s` holds at least one occurrence of `c`.
pub open spec fn has_char(s: Seq<char>, c: char) -> bool {
    exists|i: int| 0 <= i < s.len() && s[i] == c
}

/// Whether `s@` holds at least one occurrence of `c`.
pub fn contains_char(s: &str, c: char) -> (r: bool)
    ensures
        r == has_char(s@, c),
{
    let n = s.unicode_len();
    let mut i: usize = 0;
    while i < n
        invariant
            n == s@.len(),
            i <= n,
            forall|j: int| 0 <= j < i ==> s@[j] != c,
        decreases n - i,
    {
        if char_eq(s.get_char(i), c) {
            return true;
        }
        i += 1;
    }
    false
}

} // verus!
