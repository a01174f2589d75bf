use vstd::prelude::*;

use crate::strutil::{
    lex_le, is_prefix_of, starts_with, str_le, tokens_of, tokenize, find_last, str_eq,
    lemma_lex_le_total, lemma_last_index_some, lemma_last_index_none, last_index_of,
};

verus! {

/// One file-system entry offered by the completion engine: its name and
/// whether it is a directory.
pub struct Suggestion {
    pub file_name: String,
    pub is_dir: bool,
}

/// Clones a suggestion, keeping its value.
fn clone_suggestion(e: &Suggestion) -> (r: Suggestion)
    ensures
        r == *e,
{
    Suggestion { file_name: e.file_name.clone(), is_dir: e.is_dir }
}

/// Whether an entry belongs to the suggestion set: its name starts with the
/// search prefix and, in a directories-only context, it is a directory.
pub open spec fn suggestion_matches(e: Suggestion, prefix: Seq<char>, dirs_only: bool) -> bool {
    is_prefix_of(prefix, e.file_name@) && (dirs_only ==> e.is_dir)
}

/// The entries of the suggestion set, in the order they were listed.
pub open spec fn matching(entries: Seq<Suggestion>, prefix: Seq<char>, dirs_only: bool) -> Seq<
    Suggestion,
>
    decreases entries.len(),
{
    if entries.len() == 0 {
        Seq::empty()
    } else {
        let rest = matching(entries.skip(1), prefix, dirs_only);
        if suggestion_matches(entries[0], prefix, dirs_only) {
            seq![entries[0]] + rest
        } else {
            rest
        }
    }
}

/// Where `x` lands when inserted into `s` by name: before the first entry
/// whose name is no smaller.
pub open spec fn insert_by_name(s: Seq<Suggestion>, x: Suggestion) -> Seq<Suggestion>
    decreases s.len(),
{
    if s.len() == 0 {
        seq![x]
    } else if lex_le(x.file_name@, s[0].file_name@) {
        seq![x] + s
    } else {
        seq![s[0]] + insert_by_name(s.skip(1), x)
    }
}

/// The entries of `s` sorted by name: each inserted in turn into the sorted
/// run of those before it.
pub open spec fn sort_by_name(s: Seq<Suggestion>) -> Seq<Suggestion>
    decreases s.len(),
{
    if s.len() == 0 {
        Seq::empty()
    } else {
        insert_by_name(sort_by_name(s.drop_last()), s.last())
    }
}

/// Each entry's name comes no later than the next one's.
pub open spec fn sorted_by_name(s: Seq<Suggestion>) -> bool {
    forall|i: int| 0 <= i < s.len() - 1 ==> lex_le(#[trigger] s[i].file_name@, s[i + 1].file_name@)
}

/// Inserting by name into a sorted run keeps it sorted.
pub proof fn lemma_insert_by_name_sorted(s: Seq<Suggestion>, x: Suggestion)
    requires
        sorted_by_name(s),
    ensures
        sorted_by_name(insert_by_name(s, x)),
        insert_by_name(s, x).len() == s.len() + 1,
    decreases s.len(),
{
    if s.len() == 0 {
    } else if lex_le(x.file_name@, s[0].file_name@) {
        let out = seq![x] + s;
        assert forall|i: int| 0 <= i < out.len() - 1 implies lex_le(
            #[trigger] out[i].file_name@,
            out[i + 1].file_name@,
        ) by {
            if i > 0 {
                assert(out[i] == s[i - 1] && out[i + 1] == s[i]);
            }
        }
    } else {
        lemma_lex_le_total(x.file_name@, s[0].file_name@);
        assert(sorted_by_name(s.skip(1))) by {
            assert(forall|i: int|
                0 <= i < s.skip(1).len() ==> #[trigger] s.skip(1)[i] == s[i + 1]);
        }
        lemma_insert_by_name_sorted(s.skip(1), x);
        let rest = insert_by_name(s.skip(1), x);
        let out = seq![s[0]] + rest;
        assert(rest.len() > 0);
        assert(lex_le(s[0].file_name@, rest[0].file_name@)) by {
            if s.skip(1).len() == 0 {
                assert(rest[0] == x);
            } else if lex_le(x.file_name@, s.skip(1)[0].file_name@) {
                assert(rest[0] == x);
            } else {
                assert(rest[0] == s.skip(1)[0]);
                assert(s.skip(1)[0] == s[1]);
            }
        }
        assert forall|i: int| 0 <= i < out.len() - 1 implies lex_le(
            #[trigger] out[i].file_name@,
            out[i + 1].file_name@,
        ) by {
            if i > 0 {
                assert(out[i] == rest[i - 1] && out[i + 1] == rest[i]);
            } else {
                assert(out[0] == s[0] && out[1] == rest[0]);
            }
        }
    }
}

/// Sorting by name sorts: the result is ordered and has the same length.
pub proof fn lemma_sort_by_name_sorted(s: Seq<Suggestion>)
    ensures
        sorted_by_name(sort_by_name(s)),
        sort_by_name(s).len() == s.len(),
    decreases s.len(),
{
    if s.len() > 0 {
        lemma_sort_by_name_sorted(s.drop_last());
        lemma_insert_by_name_sorted(sort_by_name(s.drop_last()), s.last());
    }
}

/// Sorting by name keeps exactly the entries: the result is a permutation.
pub proof fn lemma_sort_by_name_multiset(s: Seq<Suggestion>)
    ensures
        sort_by_name(s).to_multiset() == s.to_multiset(),
    decreases s.len(),
{
    broadcast use vstd::seq_lib::group_to_multiset_ensures;

    if s.len() > 0 {
        lemma_sort_by_name_multiset(s.drop_last());
        lemma_insert_by_name_multiset(sort_by_name(s.drop_last()), s.last());
        assert(s =~= s.drop_last().push(s.last()));
        assert(s.drop_last().push(s.last()).to_multiset() == s.drop_last().to_multiset().insert(
            s.last(),
        ));
    }
}

/// Inserting by name adds exactly the one entry to the contents.
proof fn lemma_insert_by_name_multiset(s: Seq<Suggestion>, x: Suggestion)
    ensures
        insert_by_name(s, x).to_multiset() == s.to_multiset().insert(x),
    decreases s.len(),
{
    broadcast use vstd::seq_lib::group_to_multiset_ensures;

    if s.len() == 0 {
        assert(insert_by_name(s, x) =~= Seq::empty().push(x));
        assert(s.to_multiset() =~= Seq::<Suggestion>::empty().to_multiset());
    } else if lex_le(x.file_name@, s[0].file_name@) {
        assert(seq![x] + s =~= s.insert(0, x));
        vstd::seq_lib::lemma_multiset_commutative(seq![x], s);
        assert(seq![x].to_multiset() =~= Seq::<Suggestion>::empty().push(x).to_multiset());
    } else {
        lemma_insert_by_name_multiset(s.skip(1), x);
        let rest = insert_by_name(s.skip(1), x);
        vstd::seq_lib::lemma_multiset_commutative(seq![s[0]], rest);
        vstd::seq_lib::lemma_multiset_commutative(seq![s[0]], s.skip(1));
        assert(seq![s[0]] + s.skip(1) =~= s);
        assert(seq![s[0]].to_multiset() =~= Seq::<Suggestion>::empty().push(s[0]).to_multiset());
    }
}

/// Keeps the entries of the suggestion set, in listing order.
fn filter_matching(entries: &Vec<Suggestion>, prefix: &String, dirs_only: bool) -> (r: Vec<
    Suggestion,
>)
    ensures
        r@ == matching(entries@, prefix@, dirs_only),
{
    let n = entries.len();
    let mut out: Vec<Suggestion> = Vec::new();
    let mut i: usize = 0;
    proof {
        assert(entries@.skip(0) =~= entries@);
        assert(matching(entries@, prefix@, dirs_only) =~= out@ + matching(
            entries@.skip(0),
            prefix@,
            dirs_only,
        ));
    }
    while i < n
        invariant
            n == entries@.len(),
            i <= n,
            matching(entries@, prefix@, dirs_only) =~= out@ + matching(
                entries@.skip(i as int),
                prefix@,
                dirs_only,
            ),
        decreases n - i,
    {
        proof {
            assert(entries@.skip(i as int)[0] == entries@[i as int]);
            assert(entries@.skip(i as int).skip(1) =~= entries@.skip(i as int + 1));
        }
        let e = &entries[i];
        let matched = starts_with(e.file_name.as_str(), prefix.as_str()) && (!dirs_only
            || e.is_dir);
        if matched {
            let ghost pre = out@;
            out.push(clone_suggestion(e));
            proof {
                assert(out@ =~= pre.push(entries@[i as int]));
                assert(pre.push(entries@[i as int]) =~= pre + seq![entries@[i as int]]);
            }
        }
        i += 1;
    }
    proof {
        assert(matching(entries@.skip(n as int), prefix@, dirs_only) =~= Seq::<Suggestion>::empty());
        assert(out@ =~= matching(entries@, prefix@, dirs_only));
    }
    out
}

/// Inserting before the first entry with a name no smaller is what
/// `insert_by_name` does.
proof fn lemma_insert_position(s: Seq<Suggestion>, x: Suggestion, p: int)
    requires
        0 <= p <= s.len(),
        forall|j: int| 0 <= j < p ==> !lex_le(x.file_name@, (#[trigger] s[j]).file_name@),
        p < s.len() ==> lex_le(x.file_name@, s[p].file_name@),
    ensures
        insert_by_name(s, x) == s.insert(p, x),
    decreases p,
{
    if s.len() == 0 {
        assert(insert_by_name(s, x) =~= s.insert(0, x));
    } else if p == 0 {
        assert(insert_by_name(s, x) =~= s.insert(0, x));
    } else {
        assert(!lex_le(x.file_name@, s[0].file_name@));
        assert(forall|j: int|
            0 <= j < p - 1 ==> !lex_le(x.file_name@, (#[trigger] s.skip(1)[j]).file_name@));
        assert(p - 1 < s.skip(1).len() ==> lex_le(x.file_name@, s.skip(1)[p - 1].file_name@));
        lemma_insert_position(s.skip(1), x, p - 1);
        assert(insert_by_name(s, x) == seq![s[0]] + s.skip(1).insert(p - 1, x));
        assert(seq![s[0]] + s.skip(1).insert(p - 1, x) =~= s.insert(p, x));
    }
}

/// Sorts the suggestion set by name, for a deterministic, reproducible
/// ordering.
fn sort_suggestions(v: Vec<Suggestion>) -> (r: Vec<Suggestion>)
    ensures
        r@ == sort_by_name(v@),
{
    let n = v.len();
    let mut out: Vec<Suggestion> = Vec::new();
    let mut i: usize = 0;
    proof {
        assert(v@.take(0) =~= Seq::<Suggestion>::empty());
    }
    while i < n
        invariant
            n == v@.len(),
            i <= n,
            out@ == sort_by_name(v@.take(i as int)),
        decreases n - i,
    {
        let x = clone_suggestion(&v[i]);
        let mut p: usize = 0;
        while p < out.len() && !str_le(x.file_name.as_str(), out[p].file_name.as_str())
            invariant
                p <= out@.len(),
                x == v@[i as int],
                forall|j: int|
                    0 <= j < p ==> !lex_le(x.file_name@, (#[trigger] out@[j]).file_name@),
            decreases out@.len() - p,
        {
            p += 1;
        }
        let ghost pre = out@;
        out.insert(p, x);
        proof {
            lemma_insert_position(pre, v@[i as int], p as int);
            assert(v@.take(i as int + 1).drop_last() =~= v@.take(i as int));
            assert(v@.take(i as int + 1).last() == v@[i as int]);
        }
        i += 1;
    }
    proof {
        assert(v@.take(n as int) =~= v@);
    }
    out
}

/// Where the completion fragment begins: right after the last whitespace
/// character of the line, or at its start when there is none.
pub open spec fn frag_start(s: Seq<char>) -> int
    decreases s.len(),
{
    if s.len() == 0 {
        0
    } else if crate::strutil::is_space_char(s[s.len() - 1]) {
        s.len() as int
    } else {
        frag_start(s.drop_last())
    }
}

/// Where the search prefix begins within the fragment: right after its last
/// path separator, or at its start when there is none.
pub open spec fn seg_start(frag: Seq<char>) -> int {
    match last_index_of(frag, '/') {
        Some(i) => i + 1,
        None => 0,
    }
}

/// Whether the line's command is the directory-change command, whose
/// completion is restricted to directories.
pub open spec fn is_cd_line(line: Seq<char>) -> bool {
    tokens_of(line).len() > 0 && tokens_of(line)[0] == "cd"@
}

/// Finds `frag_start(s@)`.
fn find_frag_start(s: &str) -> (k: usize)
    ensures
        k as int == frag_start(s@),
        k <= s@.len(),
{
    let n = s.unicode_len();
    let mut k = n;
    proof {
        assert(s@.take(n as int) =~= s@);
    }
    while k > 0
        invariant
            n == s@.len(),
            k <= n,
            frag_start(s@) == frag_start(s@.take(k as int)),
        decreases k,
    {
        let c = s.get_char(k - 1);
        proof {
            assert(s@.take(k as int)[k - 1] == s@[k as int - 1]);
        }
        if c == ' ' || c == '\t' || c == '\n' || c == '\r' {
            return k;
        }
        proof {
            assert(s@.take(k as int).drop_last() =~= s@.take(k as int - 1));
        }
        k -= 1;
    }
    0
}

/// Whether the line's first token is `cd`.
fn cd_context(line: &str) -> (r: bool)
    ensures
        r == is_cd_line(line@),
{
    let toks = tokenize(line);
    if toks.len() > 0 {
        proof {
            assert(toks.deep_view()[0] == toks@[0]@);
        }
        str_eq(toks[0].as_str(), "cd")
    } else {
        false
    }
}

/// `k` space characters.
pub open spec fn spaces(k: nat) -> Seq<char> {
    Seq::new(k, |i: int| ' ')
}

/// A grid cell: the name, left-aligned in a field of `w` characters.
pub open spec fn pad_to(name: Seq<char>, w: nat) -> Seq<char> {
    if name.len() <= w {
        name + spaces((w - name.len()) as nat)
    } else {
        name
    }
}

/// One grid row: the cells of its names, in order.
pub open spec fn row_text(names: Seq<Seq<char>>, w: nat) -> Seq<char>
    decreases names.len(),
{
    if names.len() == 0 {
        Seq::empty()
    } else {
        pad_to(names[0], w) + row_text(names.skip(1), w)
    }
}

/// The rows of a left-aligned grid filled row-major with `cols` cells of
/// width `w` per row; the final row may be partial.
pub open spec fn grid_lines(names: Seq<Seq<char>>, cols: nat, w: nat) -> Seq<Seq<char>>
    decreases names.len(),
{
    if cols == 0 || names.len() == 0 {
        seq![]
    } else if names.len() <= cols {
        seq![row_text(names, w)]
    } else {
        seq![row_text(names.take(cols as int), w)] + grid_lines(names.skip(cols as int), cols, w)
    }
}

/// The names of a suggestion sequence, in order.
pub open spec fn names_of(s: Seq<Suggestion>) -> Seq<Seq<char>> {
    s.map_values(|e: Suggestion| e.file_name@)
}

/// The length of the longest name, or zero when there is none.
pub open spec fn max_len(names: Seq<Seq<char>>) -> nat
    decreases names.len(),
{
    if names.len() == 0 {
        0nat
    } else {
        let m = max_len(names.skip(1));
        if names[0].len() >= m {
            names[0].len()
        } else {
            m
        }
    }
}

/// The column count of the grid: how many cells of width `w` the terminal
/// fits, and at least one.
pub open spec fn grid_cols(width: nat, w: nat) -> nat {
    if w == 0 {
        1nat
    } else if width / w == 0 {
        1nat
    } else {
        width / w
    }
}

/// The larger of two naturals.
pub open spec fn nat_max(a: nat, b: nat) -> nat {
    if a >= b {
        a
    } else {
        b
    }
}

/// No name is longer than the longest.
proof fn lemma_max_len_ge(names: Seq<Seq<char>>)
    ensures
        forall|i: int| 0 <= i < names.len() ==> (#[trigger] names[i]).len() <= max_len(names),
    decreases names.len(),
{
    if names.len() > 0 {
        lemma_max_len_ge(names.skip(1));
        assert forall|i: int| 0 <= i < names.len() implies (#[trigger] names[i]).len() <= max_len(
            names,
        ) by {
            if i > 0 {
                assert(names[i] == names.skip(1)[i - 1]);
                assert(names.skip(1)[i - 1].len() <= max_len(names.skip(1)));
            }
        }
    }
}

/// A bound on every name bounds the longest.
proof fn lemma_max_len_le(names: Seq<Seq<char>>, b: nat)
    requires
        forall|i: int| 0 <= i < names.len() ==> (#[trigger] names[i]).len() <= b,
    ensures
        max_len(names) <= b,
    decreases names.len(),
{
    if names.len() > 0 {
        assert(forall|i: int| 0 <= i < names.skip(1).len() ==> #[trigger] names.skip(1)[i] == names[i + 1]);
        lemma_max_len_le(names.skip(1), b);
    }
}

/// Every name of the suggestion set is at most `b` characters.
pub open spec fn names_bounded(s: Seq<Suggestion>, b: nat) -> bool {
    forall|i: int| 0 <= i < s.len() ==> (#[trigger] s[i].file_name@).len() <= b
}

/// Filtering keeps the name bound.
proof fn lemma_matching_bounded(entries: Seq<Suggestion>, prefix: Seq<char>, d: bool, b: nat)
    requires
        names_bounded(entries, b),
    ensures
        names_bounded(matching(entries, prefix, d), b),
    decreases entries.len(),
{
    if entries.len() > 0 {
        assert(forall|i: int|
            0 <= i < entries.skip(1).len() ==> #[trigger] entries.skip(1)[i] == entries[i + 1]);
        lemma_matching_bounded(entries.skip(1), prefix, d, b);
        let rest = matching(entries.skip(1), prefix, d);
        if suggestion_matches(entries[0], prefix, d) {
            assert(forall|i: int|
                0 < i < (seq![entries[0]] + rest).len() ==> (seq![entries[0]] + rest)[i]
                    == #[trigger] rest[i - 1]);
        }
    }
}

/// Inserting keeps the name bound.
proof fn lemma_insert_bounded(s: Seq<Suggestion>, x: Suggestion, b: nat)
    requires
        names_bounded(s, b),
        x.file_name@.len() <= b,
    ensures
        names_bounded(insert_by_name(s, x), b),
    decreases s.len(),
{
    if s.len() == 0 {
    } else if lex_le(x.file_name@, s[0].file_name@) {
        assert(forall|i: int|
            0 < i < (seq![x] + s).len() ==> (seq![x] + s)[i] == #[trigger] s[i - 1]);
    } else {
        assert(forall|i: int|
            0 <= i < s.skip(1).len() ==> #[trigger] s.skip(1)[i] == s[i + 1]);
        lemma_insert_bounded(s.skip(1), x, b);
        let rest = insert_by_name(s.skip(1), x);
        assert(forall|i: int|
            0 < i < (seq![s[0]] + rest).len() ==> (seq![s[0]] + rest)[i] == #[trigger] rest[i
                - 1]);
    }
}

/// Sorting keeps the name bound.
proof fn lemma_sort_bounded(s: Seq<Suggestion>, b: nat)
    requires
        names_bounded(s, b),
    ensures
        names_bounded(sort_by_name(s), b),
    decreases s.len(),
{
    if s.len() > 0 {
        assert(forall|i: int|
            0 <= i < s.drop_last().len() ==> #[trigger] s.drop_last()[i] == s[i]);
        lemma_sort_bounded(s.drop_last(), b);
        lemma_insert_bounded(sort_by_name(s.drop_last()), s.last(), b);
    }
}

/// The longest name of the suggestion set, or zero when it is empty.
fn max_name_len(v: &Vec<Suggestion>) -> (m: usize)
    ensures
        m as nat == max_len(names_of(v@)),
{
    let ghost names = names_of(v@);
    let n = v.len();
    let mut m: usize = 0;
    let mut i: usize = 0;
    proof {
        assert(names.skip(0) =~= names);
        assert(names.len() == n);
    }
    while i < n
        invariant
            n == v@.len(),
            i <= n,
            names == names_of(v@),
            names.len() == n,
            max_len(names) == nat_max(m as nat, max_len(names.skip(i as int))),
        decreases n - i,
    {
        proof {
            assert(names.skip(i as int)[0] == names[i as int]);
            assert(names[i as int] == v@[i as int].file_name@);
            assert(names.skip(i as int).skip(1) =~= names.skip(i as int + 1));
        }
        let l = v[i].file_name.as_str().unicode_len();
        if l > m {
            m = l;
        }
        i += 1;
    }
    proof {
        assert(names.skip(n as int) =~= Seq::<Seq<char>>::empty());
    }
    m
}

/// The name, left-aligned in a field of `w` characters.
fn pad_name(name: &String, w: usize) -> (r: String)
    requires
        name@.len() <= w,
    ensures
        r@ == pad_to(name@, w as nat),
{
    let mut r = name.clone();
    let mut have = name.as_str().unicode_len();
    proof {
        reveal_strlit(" ");
        assert(r@ =~= name@ + spaces((have - name@.len()) as nat));
    }
    while have < w
        invariant
            name@.len() <= have <= w,
            r@ =~= name@ + spaces((have - name@.len()) as nat),
        decreases w - have,
    {
        r.append(" ");
        proof {
            reveal_strlit(" ");
            assert(r@ =~= name@ + spaces((have + 1 - name@.len()) as nat));
        }
        have += 1;
    }
    proof {
        assert(r@ =~= pad_to(name@, w as nat));
    }
    r
}

/// Renders the sorted suggestion set as grid rows: cell width four more
/// than the longest name, as many columns as the terminal width fits.
fn render_grid(sorted: &Vec<Suggestion>, width: usize) -> (lines: Vec<String>)
    requires
        names_bounded(sorted@, (usize::MAX - 4) as nat),
    ensures
        ({
            let names = names_of(sorted@);
            let w = (max_len(names) + 4) as nat;
            lines.deep_view() == grid_lines(names, grid_cols(width as nat, w), w)
        }),
{
    let ghost names = names_of(sorted@);
    proof {
        assert(forall|i: int|
            0 <= i < names.len() ==> (#[trigger] names[i]).len() <= (usize::MAX - 4) as nat) by {
            assert(forall|i: int|
                0 <= i < names.len() ==> #[trigger] names[i] == sorted@[i].file_name@);
        }
        lemma_max_len_le(names, (usize::MAX - 4) as nat);
        lemma_max_len_ge(names);
    }
    let maxw = max_name_len(sorted);
    let w = maxw + 4;
    let mut cols = width / w;
    if cols == 0 {
        cols = 1;
    }
    proof {
        assert(cols as nat == grid_cols(width as nat, w as nat));
    }
    let n = sorted.len();
    let mut lines: Vec<String> = Vec::new();
    let mut idx: usize = 0;
    proof {
        assert(names.skip(0) =~= names);
        assert(names.len() == n);
        assert(lines.deep_view() + grid_lines(names.skip(0), cols as nat, w as nat) =~= grid_lines(
            names,
            cols as nat,
            w as nat,
        ));
    }
    while idx < n
        invariant
            n == sorted@.len(),
            idx <= n,
            names == names_of(sorted@),
            names.len() == n,
            w == max_len(names) + 4,
            cols >= 1,
            cols as nat == grid_cols(width as nat, w as nat),
            forall|i: int| 0 <= i < names.len() ==> (#[trigger] names[i]).len() <= max_len(names),
            grid_lines(names, cols as nat, w as nat) =~= lines.deep_view() + grid_lines(
                names.skip(idx as int),
                cols as nat,
                w as nat,
            ),
        decreases n - idx,
    {
        let count = if n - idx < cols {
            n - idx
        } else {
            cols
        };
        let ghost chunk = names.subrange(idx as int, idx as int + count as int);
        let mut row = String::new();
        let mut j: usize = 0;
        proof {
            assert(chunk.skip(0) =~= chunk);
            assert(row@ + row_text(chunk.skip(0), w as nat) =~= row_text(chunk, w as nat));
        }
        while j < count
            invariant
                j <= count,
                idx + count <= n,
                n == sorted@.len(),
                names == names_of(sorted@),
                names.len() == n,
                w == max_len(names) + 4,
                forall|i: int|
                    0 <= i < names.len() ==> (#[trigger] names[i]).len() <= max_len(names),
                chunk == names.subrange(idx as int, idx as int + count as int),
                row_text(chunk, w as nat) =~= row@ + row_text(chunk.skip(j as int), w as nat),
            decreases count - j,
        {
            proof {
                assert(chunk.skip(j as int)[0] == chunk[j as int]);
                assert(chunk[j as int] == names[idx as int + j as int]);
                assert(names[idx as int + j as int] == sorted@[idx as int + j as int].file_name@);
                assert(chunk.skip(j as int).skip(1) =~= chunk.skip(j as int + 1));
            }
            let cell = pad_name(&sorted[idx + j].file_name, w);
            row.append(cell.as_str());
            j += 1;
        }
        proof {
            assert(chunk.skip(count as int) =~= Seq::<Seq<char>>::empty());
            assert(row@ =~= row_text(chunk, w as nat));
        }
        let ghost pre = lines.deep_view();
        lines.push(row);
        proof {
            assert(lines.deep_view() =~= pre.push(row_text(chunk, w as nat)));
            let tail = names.skip(idx as int);
            assert(tail.len() == n - idx);
            if n - idx <= cols {
                assert(chunk =~= tail);
                assert(grid_lines(tail, cols as nat, w as nat) == seq![
                    row_text(tail, w as nat),
                ]);
                assert(names.skip(idx as int + count as int) =~= Seq::<Seq<char>>::empty());
                assert(lines.deep_view() + grid_lines(
                    names.skip(idx as int + count as int),
                    cols as nat,
                    w as nat,
                ) =~= pre + (seq![row_text(tail, w as nat)] + grid_lines(
                    names.skip(idx as int + count as int),
                    cols as nat,
                    w as nat,
                )));
            } else {
                assert(chunk =~= tail.take(cols as int));
                assert(tail.skip(cols as int) =~= names.skip(idx as int + count as int));
                assert(grid_lines(tail, cols as nat, w as nat) == seq![
                    row_text(tail.take(cols as int), w as nat),
                ] + grid_lines(tail.skip(cols as int), cols as nat, w as nat));
                assert(lines.deep_view() + grid_lines(
                    names.skip(idx as int + count as int),
                    cols as nat,
                    w as nat,
                ) =~= pre + (seq![row_text(chunk, w as nat)] + grid_lines(
                    names.skip(idx as int + count as int),
                    cols as nat,
                    w as nat,
                )));
            }
        }
        idx += count;
    }
    proof {
        assert(names.skip(n as int) =~= Seq::<Seq<char>>::empty());
        assert(lines.deep_view() =~= grid_lines(names, cols as nat, w as nat));
    }
    lines
}

/// What a completion trigger produced.
pub enum Completion {
    /// No entry matched; the line is left as it is.
    NoMatch,
    /// Exactly one entry matched: the line with its trailing fragment's
    /// final segment rewritten to the match, a separator appended when the
    /// match is a directory.
    Single(String),
    /// Two or more entries matched: the grid rows to print below the
    /// prompt; the line is left as it is.
    Grid(Vec<String>),
}

/// The completion engine.
pub struct AutoComplete {}

impl AutoComplete {
    /// A completion engine.
    pub fn new() -> (r: Self) {
        AutoComplete {  }
    }

    /// Completes the line's trailing fragment against `entries`, the
    /// listing of the fragment's directory. The search prefix is the
    /// fragment's final segment; on a `cd` line only directories are
    /// offered. One match rewrites the segment in place; several render a
    /// sorted grid sized to `width`; none changes nothing.
    pub fn autocomplete(&self, line: &String, entries: &Vec<Suggestion>, width: usize) -> (r:
        Completion)
        requires
            names_bounded(entries@, (usize::MAX - 4) as nat),
        ensures
            ({
                let fs = frag_start(line@);
                let frag = line@.skip(fs);
                let pre = frag.skip(seg_start(frag));
                let ms = matching(entries@, pre, is_cd_line(line@));
                &&& (ms.len() == 0 ==> r == Completion::NoMatch)
                &&& (ms.len() == 1 ==> (r matches Completion::Single(nl) && nl@ == line@.take(
                    fs + seg_start(frag),
                ) + ms[0].file_name@ + (if ms[0].is_dir {
                    "/"@
                } else {
                    Seq::<char>::empty()
                })))
                &&& (ms.len() > 1 ==> (r matches Completion::Grid(lines) && {
                    let names = names_of(sort_by_name(ms));
                    let w = (max_len(names) + 4) as nat;
                    lines.deep_view() == grid_lines(names, grid_cols(width as nat, w), w)
                }))
            }),
    {
        let n = line.as_str().unicode_len();
        let k = find_frag_start(line.as_str());
        let frag = line.as_str().substring_char(k, n).to_owned();
        proof {
            assert(line@.subrange(k as int, n as int) =~= line@.skip(k as int));
        }
        let flen = frag.as_str().unicode_len();
        let ss: usize = match find_last(frag.as_str(), '/') {
            Some(i) => {
                proof {
                    lemma_last_index_some(frag@, '/', i as int);
                }
                i + 1
            },
            None => {
                proof {
                    lemma_last_index_none(frag@, '/');
                }
                0
            },
        };
        let prefix = frag.as_str().substring_char(ss, flen).to_owned();
        proof {
            assert(frag@.subrange(ss as int, flen as int) =~= frag@.skip(ss as int));
        }
        let dirs_only = cd_context(line.as_str());
        let ms = filter_matching(entries, &prefix, dirs_only);
        let m = ms.len();
        if m == 0 {
            Completion::NoMatch
        } else if m == 1 {
            let head = line.as_str().substring_char(0, k + ss).to_owned();
            proof {
                assert(line@.subrange(0, k as int + ss as int) =~= line@.take(
                    k as int + ss as int,
                ));
            }
            let nl = head.concat(ms[0].file_name.as_str());
            if ms[0].is_dir {
                let nl2 = nl.concat("/");
                Completion::Single(nl2)
            } else {
                proof {
                    assert(nl@ + Seq::<char>::empty() =~= nl@);
                }
                Completion::Single(nl)
            }
        } else {
            proof {
                lemma_matching_bounded(entries@, prefix@, dirs_only, (usize::MAX - 4) as nat);
            }
            let sorted = sort_suggestions(ms);
            proof {
                let ghost msv = matching(entries@, prefix@, dirs_only);
                lemma_sort_bounded(msv, (usize::MAX - 4) as nat);
            }
            let lines = render_grid(&sorted, width);
            Completion::Grid(lines)
        }
    }
}

} // verus!

