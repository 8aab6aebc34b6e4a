//! Character runs: where the occupied cells of a row start and end, and how a
//! template is cut into rows.

use vstd::prelude::*;
use vstd::string::*;

verus! {

/// The character that marks an occupied column; every other character is empty.
pub const BLOCK: char = '#';

/// The character that separates the rows of a template.
pub const ROW_BREAK: char = '\n';

/// Whether the run has at least one occupied column.
pub open spec fn has_block(s: Seq<char>) -> bool {
    exists|i: int| 0 <= i < s.len() && s[i] == BLOCK
}

/// Index of the first occupied column at or after `i`, or the length of the
/// run if there is none.
pub open spec fn first_block_from(s: Seq<char>, i: int) -> int
    decreases s.len() - i,
{
    if i >= s.len() {
        s.len() as int
    } else if s[i] == BLOCK {
        i
    } else {
        first_block_from(s, i + 1)
    }
}

/// Index of the first occupied column, or the length of the run if there is none.
pub open spec fn first_block(s: Seq<char>) -> int {
    first_block_from(s, 0)
}

/// Index of the last occupied column before `i`, or -1 if there is none.
pub open spec fn last_block_before(s: Seq<char>, i: int) -> int
    decreases i,
{
    if i <= 0 {
        -1
    } else if s[i - 1] == BLOCK {
        i - 1
    } else {
        last_block_before(s, i - 1)
    }
}

/// Index of the last occupied column, or -1 if there is none.
pub open spec fn last_block(s: Seq<char>) -> int {
    last_block_before(s, s.len() as int)
}

/// The run from its first occupied column to its last one, both included;
/// empty if no column is occupied.
pub open spec fn trimmed(s: Seq<char>) -> Seq<char> {
    if has_block(s) {
        s.subrange(first_block(s), last_block(s) + 1)
    } else {
        Seq::empty()
    }
}

/// What `first_block_from` finds: nothing occupied lies between `i` and the result.
pub proof fn lemma_first_block_from(s: Seq<char>, i: int)
    requires
        0 <= i <= s.len(),
    ensures
        i <= first_block_from(s, i) <= s.len(),
        forall|j: int| i <= j < first_block_from(s, i) ==> s[j] != BLOCK,
        first_block_from(s, i) < s.len() ==> s[first_block_from(s, i)] == BLOCK,
    decreases s.len() - i,
{
    if i < s.len() && s[i] != BLOCK {
        lemma_first_block_from(s, i + 1);
    }
}

/// What `last_block_before` finds: nothing occupied lies between the result and `i`.
pub proof fn lemma_last_block_before(s: Seq<char>, i: int)
    requires
        0 <= i <= s.len(),
    ensures
        -1 <= last_block_before(s, i) < i,
        forall|j: int| last_block_before(s, i) < j < i ==> s[j] != BLOCK,
        last_block_before(s, i) >= 0 ==> s[last_block_before(s, i)] == BLOCK,
    decreases i,
{
    if i > 0 && s[i - 1] != BLOCK {
        lemma_last_block_before(s, i - 1);
    }
}

/// The first and last occupied columns of a run, and how they relate to
/// `has_block` and to each other.
pub proof fn lemma_block_bounds(s: Seq<char>)
    ensures
        0 <= first_block(s) <= s.len(),
        -1 <= last_block(s) < s.len(),
        has_block(s) <==> first_block(s) < s.len(),
        has_block(s) <==> last_block(s) >= 0,
        has_block(s) ==> first_block(s) <= last_block(s),
        has_block(s) ==> s[first_block(s)] == BLOCK && s[last_block(s)] == BLOCK,
        forall|j: int| 0 <= j < first_block(s) ==> s[j] != BLOCK,
        forall|j: int| last_block(s) < j < s.len() ==> s[j] != BLOCK,
{
    lemma_first_block_from(s, 0);
    lemma_last_block_before(s, s.len() as int);
}

/// Any index that meets the description of the first occupied column is it.
pub proof fn lemma_first_block_is(s: Seq<char>, k: int)
    requires
        0 <= k < s.len(),
        s[k] == BLOCK,
        forall|j: int| 0 <= j < k ==> s[j] != BLOCK,
    ensures
        first_block(s) == k,
        has_block(s),
{
    lemma_block_bounds(s);
}

/// Any index that meets the description of the last occupied column is it.
pub proof fn lemma_last_block_is(s: Seq<char>, k: int)
    requires
        0 <= k < s.len(),
        s[k] == BLOCK,
        forall|j: int| k < j < s.len() ==> s[j] != BLOCK,
    ensures
        last_block(s) == k,
        has_block(s),
{
    lemma_block_bounds(s);
}

/// A trimmed run of a row with an occupied column is not empty and both its
/// ends are occupied.
pub proof fn lemma_trimmed(s: Seq<char>)
    requires
        has_block(s),
    ensures
        trimmed(s).len() == last_block(s) - first_block(s) + 1,
        trimmed(s).len() >= 1,
        trimmed(s)[0] == BLOCK,
        trimmed(s)[trimmed(s).len() - 1] == BLOCK,
{
    lemma_block_bounds(s);
}

/// The rows of a template: the runs between its row breaks, in order. A
/// template without a row break is a single row, and a row break at the very
/// end is followed by one empty row.
pub open spec fn rows(s: Seq<char>) -> Seq<Seq<char>>
    decreases s.len(),
{
    if s.len() == 0 {
        seq![Seq::empty()]
    } else {
        let before = rows(s.drop_last());
        if s.last() == ROW_BREAK {
            before.push(Seq::empty())
        } else {
            before.drop_last().push(before.last().push(s.last()))
        }
    }
}

/// Whether the run holds a row break.
pub open spec fn has_break(s: Seq<char>) -> bool {
    exists|i: int| 0 <= i < s.len() && s[i] == ROW_BREAK
}

/// The character sequences held by a sequence of strings.
pub open spec fn texts(v: Seq<String>) -> Seq<Seq<char>> {
    Seq::new(v.len(), |i: int| v[i]@)
}

/// A template without a row break is its own only row.
pub proof fn lemma_rows_single(s: Seq<char>)
    requires
        !has_break(s),
    ensures
        rows(s) == seq![s],
    decreases s.len(),
{
    if s.len() == 0 {
        assert(s =~= Seq::empty());
    } else {
        let init = s.drop_last();
        assert(!has_break(init)) by {
            if has_break(init) {
                let i = choose|i: int| 0 <= i < init.len() && init[i] == ROW_BREAK;
                assert(s[i] == ROW_BREAK);
            }
        }
        lemma_rows_single(init);
        assert(s.last() != ROW_BREAK) by {
            assert(s[s.len() - 1] == s.last());
        }
        assert(init.push(s.last()) =~= s);
        assert(rows(s) =~= seq![s]);
    }
}

/// Appending a row break and a run without one to a template appends that
/// run to its rows.
pub proof fn lemma_rows_append(a: Seq<char>, b: Seq<char>)
    requires
        !has_break(b),
    ensures
        rows(a + seq![ROW_BREAK] + b) == rows(a).push(b),
    decreases b.len(),
{
    let whole = a + seq![ROW_BREAK] + b;
    if b.len() == 0 {
        assert(whole.drop_last() =~= a);
        assert(b =~= Seq::empty());
    } else {
        let init = b.drop_last();
        assert(!has_break(init)) by {
            if has_break(init) {
                let i = choose|i: int| 0 <= i < init.len() && init[i] == ROW_BREAK;
                assert(b[i] == ROW_BREAK);
            }
        }
        lemma_rows_append(a, init);
        assert(whole.drop_last() =~= a + seq![ROW_BREAK] + init);
        assert(whole.last() == b.last());
        assert(b.last() != ROW_BREAK) by {
            assert(b[b.len() - 1] == b.last());
        }
        assert(init.push(b.last()) =~= b);
        assert(rows(a).push(init).drop_last() =~= rows(a));
        assert(rows(whole) =~= rows(a).push(b));
    }
}

/// Finds the first occupied column of the row; the length of the row if
/// none is occupied.
pub fn find_first_block(s: &str) -> (k: usize)
    ensures
        k == first_block(s@),
        k <= s@.len(),
        k < s@.len() <==> has_block(s@),
{
    let n = s.unicode_len();
    let mut i: usize = 0;
    while i < n
        invariant
            n == s@.len(),
            i <= n,
            forall|j: int| 0 <= j < i ==> s@[j] != BLOCK,
        decreases n - i,
    {
        if s.get_char(i) == BLOCK {
            proof {
                lemma_first_block_is(s@, i as int);
            }
            return i;
        }
        i += 1;
    }
    proof {
        lemma_block_bounds(s@);
    }
    n
}

/// Finds the column just past the last occupied one; 0 if none is occupied.
pub fn find_block_end(s: &str) -> (e: usize)
    ensures
        e == last_block(s@) + 1,
        e <= s@.len(),
        e > 0 <==> has_block(s@),
{
    let n = s.unicode_len();
    let mut i: usize = n;
    while i > 0
        invariant
            n == s@.len(),
            i <= n,
            forall|j: int| i <= j < n ==> s@[j] != BLOCK,
        decreases i,
    {
        if s.get_char(i - 1) == BLOCK {
            proof {
                lemma_last_block_is(s@, i - 1);
            }
            return i;
        }
        i -= 1;
    }
    proof {
        lemma_block_bounds(s@);
    }
    0
}

/// Cuts a template into its rows.
pub fn split_rows(s: &str) -> (out: Vec<String>)
    ensures
        texts(out@) == rows(s@),
        out@.len() >= 1,
{
    let n = s.unicode_len();
    let mut out: Vec<String> = Vec::new();
    let mut start: usize = 0;
    let mut i: usize = 0;
    proof {
        assert(s@.subrange(0, 0) =~= Seq::empty());
        assert(texts(out@).push(s@.subrange(0, 0)) =~= rows(s@.subrange(0, 0)));
    }
    while i < n
        invariant
            n == s@.len(),
            start <= i <= n,
            rows(s@.subrange(0, i as int)) == texts(out@).push(s@.subrange(start as int, i as int)),
        decreases n - i,
    {
        let c = s.get_char(i);
        proof {
            let upto = s@.subrange(0, i + 1);
            assert(upto.drop_last() =~= s@.subrange(0, i as int));
            assert(upto.last() == s@[i as int]);
        }
        if c == ROW_BREAK {
            let row = s.substring_char(start, i);
            let ghost before = texts(out@);
            out.push(String::from_str(row));
            start = i + 1;
            proof {
                assert(texts(out@) =~= before.push(row@));
                assert(s@.subrange(start as int, i + 1) =~= Seq::empty());
            }
        } else {
            proof {
                let cur = s@.subrange(start as int, i as int);
                assert(cur.push(c) =~= s@.subrange(start as int, i + 1));
                assert(texts(out@).push(cur).drop_last() =~= texts(out@));
            }
        }
        i += 1;
    }
    let row = s.substring_char(start, n);
    let ghost before = texts(out@);
    out.push(String::from_str(row));
    proof {
        assert(s@.subrange(0, n as int) =~= s@);
        assert(texts(out@) =~= before.push(row@));
    }
    out
}

/// Whether two strings hold the same characters.
pub fn same_text(a: &str, b: &str) -> (same: bool)
    ensures
        same == (a@ == b@),
{
    let n = a.unicode_len();
    if b.unicode_len() != n {
        return false;
    }
    let mut i: usize = 0;
    while i < n
        invariant
            n == a@.len(),
            n == b@.len(),
            i <= n,
            forall|j: int| 0 <= j < i ==> a@[j] == b@[j],
        decreases n - i,
    {
        if a.get_char(i) != b.get_char(i) {
            return false;
        }
        i += 1;
    }
    assert(a@ =~= b@);
    true
}

} // verus!
