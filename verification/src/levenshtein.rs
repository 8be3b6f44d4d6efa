//! Levenshtein distance in which inserting or deleting a space costs nothing,
//! together with the alignment that a trace back through the table yields.
use vstd::prelude::*;

use crate::text::{chars_of, string_of};

verus! {

/// Cost of deleting `c` from the first string.
pub open spec fn del_cost_spec(c: char) -> nat {
    if c == ' ' {
        0
    } else {
        1
    }
}

/// Cost of inserting `c` from the second string.
pub open spec fn ins_cost_spec(c: char) -> nat {
    if c == ' ' {
        0
    } else {
        1
    }
}

/// Cost of replacing `x` by `y`.
pub open spec fn sub_cost_spec(x: char, y: char) -> nat {
    if x == y {
        0
    } else {
        1
    }
}

pub open spec fn min3(x: nat, y: nat, z: nat) -> nat {
    let m = if x <= y {
        x
    } else {
        y
    };
    if m <= z {
        m
    } else {
        z
    }
}

/// The distance between the first `i` characters of `a` and the first `j`
/// characters of `b`.
pub open spec fn dist(a: Seq<char>, b: Seq<char>, i: nat, j: nat) -> nat
    decreases i + j,
{
    if i == 0 && j == 0 {
        0
    } else if j == 0 {
        dist(a, b, (i - 1) as nat, 0) + del_cost_spec(a[i - 1])
    } else if i == 0 {
        dist(a, b, 0, (j - 1) as nat) + ins_cost_spec(b[j - 1])
    } else {
        min3(
            dist(a, b, (i - 1) as nat, j) + del_cost_spec(a[i - 1]),
            dist(a, b, i, (j - 1) as nat) + ins_cost_spec(b[j - 1]),
            dist(a, b, (i - 1) as nat, (j - 1) as nat) + sub_cost_spec(a[i - 1], b[j - 1]),
        )
    }
}

/// The distance between the whole of `a` and the whole of `b`.
pub open spec fn distance(a: Seq<char>, b: Seq<char>) -> nat {
    dist(a, b, a.len(), b.len())
}

/// Whether the trace back at `(i, j)` keeps a matching pair of characters.
pub open spec fn step_match(a: Seq<char>, b: Seq<char>, i: nat, j: nat) -> bool {
    i > 0 && j > 0 && a[i - 1] == b[j - 1] && dist(a, b, i, j) == dist(
        a,
        b,
        (i - 1) as nat,
        (j - 1) as nat,
    )
}

/// Whether the trace back at `(i, j)` may delete `a[i - 1]`.
pub open spec fn step_del(a: Seq<char>, b: Seq<char>, i: nat, j: nat) -> bool {
    i > 0 && dist(a, b, i, j) == dist(a, b, (i - 1) as nat, j) + del_cost_spec(a[i - 1])
}

/// Whether the trace back at `(i, j)` may insert `b[j - 1]`.
pub open spec fn step_ins(a: Seq<char>, b: Seq<char>, i: nat, j: nat) -> bool {
    j > 0 && dist(a, b, i, j) == dist(a, b, i, (j - 1) as nat) + ins_cost_spec(b[j - 1])
}

/// Whether the trace back at `(i, j)` may replace `a[i - 1]` by `b[j - 1]`.
pub open spec fn step_sub(a: Seq<char>, b: Seq<char>, i: nat, j: nat) -> bool {
    i > 0 && j > 0 && dist(a, b, i, j) == dist(a, b, (i - 1) as nat, (j - 1) as nat)
        + sub_cost_spec(a[i - 1], b[j - 1])
}

/// One column of an alignment: a character of the first string over a
/// character of the second; `None` is a gap.
pub type Column = (Option<char>, Option<char>);

/// The columns of the alignment, last column first, that the trace back from
/// `(i, j)` to `(0, 0)` produces. Ties are broken in the order: keep a match,
/// delete, insert, replace.
pub open spec fn backtrace(a: Seq<char>, b: Seq<char>, i: nat, j: nat) -> Seq<Column>
    decreases i + j,
{
    if i == 0 && j == 0 {
        seq![]
    } else if step_match(a, b, i, j) {
        seq![(Some(a[i - 1]), Some(b[j - 1]))] + backtrace(a, b, (i - 1) as nat, (j - 1) as nat)
    } else if step_del(a, b, i, j) {
        seq![(Some(a[i - 1]), None)] + backtrace(a, b, (i - 1) as nat, j)
    } else if step_ins(a, b, i, j) {
        seq![(None, Some(b[j - 1]))] + backtrace(a, b, i, (j - 1) as nat)
    } else if i > 0 && j > 0 {
        seq![(Some(a[i - 1]), Some(b[j - 1]))] + backtrace(a, b, (i - 1) as nat, (j - 1) as nat)
    } else {
        seq![]
    }
}

/// The alignment of `a` and `b` that the trace back finds, first column first.
pub open spec fn alignment(a: Seq<char>, b: Seq<char>) -> Seq<Column> {
    backtrace(a, b, a.len(), b.len()).reverse()
}

/// How a cell of an alignment is printed: a gap is shown as a space.
pub open spec fn shown(c: Option<char>) -> char {
    match c {
        Some(x) => x,
        None => ' ',
    }
}

/// The printed upper row of an alignment.
pub open spec fn upper(cols: Seq<Column>) -> Seq<char> {
    cols.map_values(|col: Column| shown(col.0))
}

/// The printed lower row of an alignment.
pub open spec fn lower(cols: Seq<Column>) -> Seq<char> {
    cols.map_values(|col: Column| shown(col.1))
}

pub open spec fn cell_chars(c: Option<char>) -> Seq<char> {
    match c {
        Some(x) => seq![x],
        None => seq![],
    }
}

/// The string that the upper cells of `cols` spell, gaps left out.
pub open spec fn source(cols: Seq<Column>) -> Seq<char>
    decreases cols.len(),
{
    if cols.len() == 0 {
        seq![]
    } else {
        source(cols.drop_last()) + cell_chars(cols.last().0)
    }
}

/// The string that the lower cells of `cols` spell, gaps left out.
pub open spec fn target(cols: Seq<Column>) -> Seq<char>
    decreases cols.len(),
{
    if cols.len() == 0 {
        seq![]
    } else {
        target(cols.drop_last()) + cell_chars(cols.last().1)
    }
}

/// Whether `cols` is an alignment of `a` with `b`.
pub open spec fn aligns(cols: Seq<Column>, a: Seq<char>, b: Seq<char>) -> bool {
    source(cols) == a && target(cols) == b
}

/// The cost of one column: a replacement, a deletion or an insertion.
pub open spec fn column_cost(col: Column) -> nat {
    match col {
        (Some(x), Some(y)) => sub_cost_spec(x, y),
        (Some(x), None) => del_cost_spec(x),
        (None, Some(y)) => ins_cost_spec(y),
        (None, None) => 0,
    }
}

/// The total cost of an alignment.
pub open spec fn cost(cols: Seq<Column>) -> nat
    decreases cols.len(),
{
    if cols.len() == 0 {
        0
    } else {
        cost(cols.drop_last()) + column_cost(cols.last())
    }
}

/// The number of positions at which `x` and `y` differ.
pub open spec fn mismatches(x: Seq<char>, y: Seq<char>) -> nat
    decreases x.len(),
{
    if x.len() == 0 || y.len() == 0 {
        0
    } else {
        mismatches(x.drop_last(), y.drop_last()) + sub_cost_spec(x.last(), y.last())
    }
}

/// Cost of deleting `c`: nothing for a space, one otherwise.
pub fn del_cost(c: char) -> (r: usize)
    ensures
        r == del_cost_spec(c),
{
    if c == ' ' {
        0
    } else {
        1
    }
}

/// Cost of inserting `c`: nothing for a space, one otherwise.
pub fn ins_cost(c: char) -> (r: usize)
    ensures
        r == ins_cost_spec(c),
{
    if c == ' ' {
        0
    } else {
        1
    }
}

/// Cost of replacing `x` by `y`: nothing when they are equal, one otherwise.
pub fn sub_cost(x: char, y: char) -> (r: usize)
    ensures
        r == sub_cost_spec(x, y),
{
    if x == y {
        0
    } else {
        1
    }
}

/// The distance never exceeds the length of the longer prefix.
pub proof fn lemma_dist_bound(a: Seq<char>, b: Seq<char>, i: nat, j: nat)
    requires
        i <= a.len(),
        j <= b.len(),
    ensures
        dist(a, b, i, j) <= if i >= j {
            i
        } else {
            j
        },
    decreases i + j,
{
    if i == 0 && j == 0 {
    } else if j == 0 {
        lemma_dist_bound(a, b, (i - 1) as nat, 0);
    } else if i == 0 {
        lemma_dist_bound(a, b, 0, (j - 1) as nat);
    } else {
        lemma_dist_bound(a, b, (i - 1) as nat, (j - 1) as nat);
    }
}

/// Away from `(0, 0)` one of the four moves of the trace back always applies:
/// the trace back never gets stuck.
pub proof fn law_trace_back_never_stuck(a: Seq<char>, b: Seq<char>, i: nat, j: nat)
    requires
        i > 0 || j > 0,
    ensures
        step_match(a, b, i, j) || step_del(a, b, i, j) || step_ins(a, b, i, j) || step_sub(
            a,
            b,
            i,
            j,
        ),
{
}

proof fn lemma_reverse_cons(col: Column, rest: Seq<Column>)
    ensures
        (seq![col] + rest).reverse() == rest.reverse().push(col),
{
    assert((seq![col] + rest).reverse() =~= rest.reverse().push(col));
}

proof fn lemma_push_parts(cols: Seq<Column>, col: Column)
    ensures
        cols.push(col).drop_last() == cols,
        cols.push(col).last() == col,
        source(cols.push(col)) == source(cols) + cell_chars(col.0),
        target(cols.push(col)) == target(cols) + cell_chars(col.1),
        cost(cols.push(col)) == cost(cols) + column_cost(col),
{
    assert(cols.push(col).drop_last() =~= cols);
}

proof fn lemma_take_step(s: Seq<char>, i: nat)
    requires
        0 < i <= s.len(),
    ensures
        s.take(i - 1) + seq![s[i - 1]] == s.take(i as int),
{
    assert(s.take(i - 1) + seq![s[i - 1]] =~= s.take(i as int));
}

/// The trace back from `(i, j)`, read forwards, aligns the first `i`
/// characters of `a` with the first `j` of `b` at cost `dist(a, b, i, j)`.
proof fn lemma_backtrace(a: Seq<char>, b: Seq<char>, i: nat, j: nat)
    requires
        i <= a.len(),
        j <= b.len(),
    ensures
        source(backtrace(a, b, i, j).reverse()) == a.take(i as int),
        target(backtrace(a, b, i, j).reverse()) == b.take(j as int),
        cost(backtrace(a, b, i, j).reverse()) == dist(a, b, i, j),
    decreases i + j,
{
    if i == 0 && j == 0 {
        assert(backtrace(a, b, i, j).reverse() =~= seq![]);
        assert(a.take(0) =~= seq![]);
        assert(b.take(0) =~= seq![]);
    } else {
        law_trace_back_never_stuck(a, b, i, j);
        if step_match(a, b, i, j) || (!step_del(a, b, i, j) && !step_ins(a, b, i, j)) {
            let col = (Some(a[i - 1]), Some(b[j - 1]));
            let rest = backtrace(a, b, (i - 1) as nat, (j - 1) as nat);
            lemma_backtrace(a, b, (i - 1) as nat, (j - 1) as nat);
            lemma_reverse_cons(col, rest);
            lemma_push_parts(rest.reverse(), col);
            lemma_take_step(a, i);
            lemma_take_step(b, j);
        } else if step_del(a, b, i, j) {
            let col = (Some(a[i - 1]), None);
            let rest = backtrace(a, b, (i - 1) as nat, j);
            lemma_backtrace(a, b, (i - 1) as nat, j);
            lemma_reverse_cons(col, rest);
            lemma_push_parts(rest.reverse(), col);
            lemma_take_step(a, i);
            assert(b.take(j as int) + seq![] =~= b.take(j as int));
        } else {
            let col = (None, Some(b[j - 1]));
            let rest = backtrace(a, b, i, (j - 1) as nat);
            lemma_backtrace(a, b, i, (j - 1) as nat);
            lemma_reverse_cons(col, rest);
            lemma_push_parts(rest.reverse(), col);
            lemma_take_step(b, j);
            assert(a.take(i as int) + seq![] =~= a.take(i as int));
        }
    }
}

/// Splits `s + cell_chars(c) == t.take(k)` into its two parts.
proof fn lemma_split_cell(s: Seq<char>, c: Option<char>, t: Seq<char>, k: nat)
    requires
        k <= t.len(),
        s + cell_chars(c) == t.take(k as int),
    ensures
        c is Some ==> k > 0 && c->0 == t[k - 1] && s == t.take(k - 1),
        c is None ==> s == t.take(k as int),
{
    if c is Some {
        assert((s + cell_chars(c)).len() == s.len() + 1);
        assert(t.take(k as int)[k - 1] == t[k - 1]);
        assert((s + cell_chars(c))[s.len() as int] == c->0);
        assert(s =~= t.take(k - 1));
    } else {
        assert(s + cell_chars(c) =~= s);
    }
}

/// No alignment of the first `i` characters of `a` with the first `j` of `b`
/// costs less than `dist(a, b, i, j)`.
proof fn lemma_dist_least(a: Seq<char>, b: Seq<char>, i: nat, j: nat, cols: Seq<Column>)
    requires
        i <= a.len(),
        j <= b.len(),
        source(cols) == a.take(i as int),
        target(cols) == b.take(j as int),
    ensures
        dist(a, b, i, j) <= cost(cols),
    decreases cols.len(),
{
    if cols.len() == 0 {
        assert(a.take(i as int).len() == i);
        assert(b.take(j as int).len() == j);
    } else {
        let rest = cols.drop_last();
        let col = cols.last();
        assert(rest.push(col) =~= cols);
        lemma_push_parts(rest, col);
        lemma_split_cell(source(rest), col.0, a, i);
        lemma_split_cell(target(rest), col.1, b, j);
        match col {
            (Some(x), Some(y)) => {
                lemma_dist_least(a, b, (i - 1) as nat, (j - 1) as nat, rest);
            },
            (Some(x), None) => {
                lemma_dist_least(a, b, (i - 1) as nat, j, rest);
            },
            (None, Some(y)) => {
                lemma_dist_least(a, b, i, (j - 1) as nat, rest);
            },
            (None, None) => {
                lemma_dist_least(a, b, i, j, rest);
            },
        }
    }
}

proof fn lemma_cost_mismatches(cols: Seq<Column>)
    ensures
        cost(cols) == mismatches(upper(cols), lower(cols)),
        upper(cols).len() == lower(cols).len(),
    decreases cols.len(),
{
    if cols.len() > 0 {
        let rest = cols.drop_last();
        lemma_cost_mismatches(rest);
        assert(upper(cols).drop_last() =~= upper(rest));
        assert(lower(cols).drop_last() =~= lower(rest));
        assert(upper(cols).last() == shown(cols.last().0));
        assert(lower(cols).last() == shown(cols.last().1));
    }
}

/// The alignment that the trace back finds spells `a` in its upper cells and
/// `b` in its lower cells, gaps left out.
pub proof fn law_alignment_spells_inputs(a: Seq<char>, b: Seq<char>)
    ensures
        aligns(alignment(a, b), a, b),
{
    lemma_backtrace(a, b, a.len(), b.len());
    assert(a.take(a.len() as int) =~= a);
    assert(b.take(b.len() as int) =~= b);
}

/// The alignment that the trace back finds costs exactly the distance.
pub proof fn law_alignment_cost_is_distance(a: Seq<char>, b: Seq<char>)
    ensures
        cost(alignment(a, b)) == distance(a, b),
{
    lemma_backtrace(a, b, a.len(), b.len());
}

/// The distance is the least cost of any alignment of `a` with `b`.
pub proof fn law_distance_is_least(a: Seq<char>, b: Seq<char>, cols: Seq<Column>)
    requires
        aligns(cols, a, b),
    ensures
        distance(a, b) <= cost(cols),
{
    assert(a.take(a.len() as int) =~= a);
    assert(b.take(b.len() as int) =~= b);
    lemma_dist_least(a, b, a.len(), b.len(), cols);
}

/// The cost of an alignment is the number of columns whose printed cells
/// differ, a gap printed as a space.
pub proof fn law_cost_is_printed_mismatches(cols: Seq<Column>)
    ensures
        cost(cols) == mismatches(upper(cols), lower(cols)),
        upper(cols).len() == lower(cols).len(),
{
    lemma_cost_mismatches(cols);
}

proof fn lemma_dist_symmetric(a: Seq<char>, b: Seq<char>, i: nat, j: nat)
    ensures
        dist(a, b, i, j) == dist(b, a, j, i),
    decreases i + j,
{
    if i == 0 && j == 0 {
    } else if j == 0 {
        lemma_dist_symmetric(a, b, (i - 1) as nat, 0);
    } else if i == 0 {
        lemma_dist_symmetric(a, b, 0, (j - 1) as nat);
    } else {
        lemma_dist_symmetric(a, b, (i - 1) as nat, j);
        lemma_dist_symmetric(a, b, i, (j - 1) as nat);
        lemma_dist_symmetric(a, b, (i - 1) as nat, (j - 1) as nat);
    }
}

/// The distance does not depend on the order of its arguments.
pub proof fn law_distance_symmetric(a: Seq<char>, b: Seq<char>)
    ensures
        distance(a, b) == distance(b, a),
{
    lemma_dist_symmetric(a, b, a.len(), b.len());
}

proof fn lemma_dist_diagonal(a: Seq<char>, i: nat)
    ensures
        dist(a, a, i, i) == 0,
    decreases i,
{
    if i > 0 {
        lemma_dist_diagonal(a, (i - 1) as nat);
    }
}

/// A string is at distance zero from itself.
pub proof fn law_distance_to_self_is_zero(a: Seq<char>)
    ensures
        distance(a, a) == 0,
{
    lemma_dist_diagonal(a, a.len());
}

proof fn lemma_concat(x: Seq<Column>, y: Seq<Column>)
    ensures
        source(x + y) == source(x) + source(y),
        target(x + y) == target(x) + target(y),
        cost(x + y) == cost(x) + cost(y),
    decreases y.len(),
{
    if y.len() == 0 {
        assert(x + y =~= x);
        assert(source(x) + source(y) =~= source(x));
        assert(target(x) + target(y) =~= target(x));
    } else {
        let yl = y.drop_last();
        lemma_concat(x, yl);
        assert((x + y).drop_last() =~= x + yl);
        assert((x + y).last() == y.last());
        assert(source(x) + source(y) =~= source(x) + source(yl) + cell_chars(y.last().0));
        assert(target(x) + target(y) =~= target(x) + target(yl) + cell_chars(y.last().1));
    }
}

proof fn lemma_single(col: Column)
    ensures
        source(seq![col]) == cell_chars(col.0),
        target(seq![col]) == cell_chars(col.1),
        cost(seq![col]) == column_cost(col),
{
    let e = seq![col].drop_last();
    assert(e =~= Seq::<Column>::empty());
    assert(source(e) == Seq::<char>::empty());
    assert(target(e) == Seq::<char>::empty());
    assert(cost(e) == 0);
    assert(Seq::<char>::empty() + cell_chars(col.0) =~= cell_chars(col.0));
    assert(Seq::<char>::empty() + cell_chars(col.1) =~= cell_chars(col.1));
}

/// A column index `q` before which the lower cells spell exactly `p`
/// characters; where `p` is short of the whole lower row, column `q` holds
/// the next one.
proof fn lemma_target_split(cols: Seq<Column>, p: int) -> (q: int)
    requires
        0 <= p <= target(cols).len(),
    ensures
        0 <= q <= cols.len(),
        target(cols.take(q)) == target(cols).take(p),
        p < target(cols).len() ==> q < cols.len() && cols[q].1 is Some,
    decreases cols.len(),
{
    if p == target(cols).len() {
        assert(cols.take(cols.len() as int) =~= cols);
        assert(target(cols).take(p) =~= target(cols));
        cols.len() as int
    } else {
        let x = cols.drop_last();
        let c = cols.last();
        assert(x.push(c) =~= cols);
        lemma_push_parts(x, c);
        if p == target(x).len() {
            assert(cols.take(x.len() as int) =~= x);
            assert(target(cols).take(p) =~= target(x));
            x.len() as int
        } else {
            let q = lemma_target_split(x, p);
            assert(cols.take(q) =~= x.take(q));
            assert(target(cols).take(p) =~= target(x).take(p));
            q
        }
    }
}

proof fn lemma_split_at(cols: Seq<Column>, q: int)
    requires
        0 <= q <= cols.len(),
    ensures
        source(cols) == source(cols.take(q)) + source(cols.skip(q)),
        target(cols) == target(cols.take(q)) + target(cols.skip(q)),
        cost(cols) == cost(cols.take(q)) + cost(cols.skip(q)),
{
    assert(cols.take(q) + cols.skip(q) =~= cols);
    lemma_concat(cols.take(q), cols.skip(q));
}

proof fn lemma_insert_space_le(a: Seq<char>, b: Seq<char>, p: int)
    requires
        0 <= p <= b.len(),
    ensures
        distance(a, b.insert(p, ' ')) <= distance(a, b),
{
    let cols = alignment(a, b);
    law_alignment_spells_inputs(a, b);
    law_alignment_cost_is_distance(a, b);
    let q = lemma_target_split(cols, p);
    lemma_split_at(cols, q);
    let gap: Column = (None, Some(' '));
    let new_cols = cols.take(q) + seq![gap] + cols.skip(q);
    lemma_single(gap);
    lemma_concat(cols.take(q), seq![gap]);
    lemma_concat(cols.take(q) + seq![gap], cols.skip(q));
    assert(source(cols.take(q)) + seq![] =~= source(cols.take(q)));
    assert(source(new_cols) == source(cols));
    assert(target(new_cols) =~= b.insert(p, ' '));
    law_distance_is_least(a, b.insert(p, ' '), new_cols);
}

proof fn lemma_insert_space_ge(a: Seq<char>, b: Seq<char>, p: int)
    requires
        0 <= p <= b.len(),
    ensures
        distance(a, b) <= distance(a, b.insert(p, ' ')),
{
    let bs = b.insert(p, ' ');
    let cols = alignment(a, bs);
    law_alignment_spells_inputs(a, bs);
    law_alignment_cost_is_distance(a, bs);
    assert(target(cols).len() == b.len() + 1);
    let q = lemma_target_split(cols, p);
    let c = cols[q];
    lemma_split_at(cols, q);
    lemma_split_at(cols.skip(q), 1);
    assert(cols.skip(q).take(1) =~= seq![c]);
    assert(cols.skip(q).skip(1) =~= cols.skip(q + 1));
    lemma_single(c);
    assert(target(cols)[p] == ' ');
    assert(c.1 == Some(' '));
    let d: Column = (c.0, None);
    lemma_single(d);
    let new_cols = cols.take(q) + seq![d] + cols.skip(q + 1);
    lemma_concat(cols.take(q), seq![d]);
    lemma_concat(cols.take(q) + seq![d], cols.skip(q + 1));
    assert(column_cost(d) == column_cost(c));
    assert(source(new_cols) =~= source(cols));
    assert(target(cols) =~= target(cols.take(q)) + seq![' '] + target(cols.skip(q + 1)));
    assert(target(new_cols) =~= target(cols.take(q)) + seq![] + target(cols.skip(q + 1)));
    let x = target(cols.take(q));
    let y = target(cols.skip(q + 1));
    assert(x == bs.take(p));
    assert(y =~= bs.skip(p + 1));
    assert(bs.take(p) + bs.skip(p + 1) =~= b);
    assert(target(new_cols) =~= b);
    law_distance_is_least(a, b, new_cols);
}

/// Inserting a space anywhere into either string leaves the distance as it
/// was: spaces are inserted and deleted for free.
pub proof fn law_space_insertion_is_free(a: Seq<char>, b: Seq<char>, p: int)
    requires
        0 <= p <= b.len(),
    ensures
        distance(a, b.insert(p, ' ')) == distance(a, b),
        distance(b.insert(p, ' '), a) == distance(b, a),
{
    lemma_insert_space_le(a, b, p);
    lemma_insert_space_ge(a, b, p);
    law_distance_symmetric(a, b);
    law_distance_symmetric(a, b.insert(p, ' '));
}

/// `s` with every space left out.
pub open spec fn without_spaces(s: Seq<char>) -> Seq<char>
    decreases s.len(),
{
    if s.len() == 0 {
        seq![]
    } else if s.last() == ' ' {
        without_spaces(s.drop_last())
    } else {
        without_spaces(s.drop_last()).push(s.last())
    }
}

proof fn lemma_free_alignment_agrees(cols: Seq<Column>)
    requires
        cost(cols) == 0,
    ensures
        without_spaces(source(cols)) == without_spaces(target(cols)),
    decreases cols.len(),
{
    if cols.len() > 0 {
        let x = cols.drop_last();
        let c = cols.last();
        assert(x.push(c) =~= cols);
        lemma_push_parts(x, c);
        lemma_free_alignment_agrees(x);
        match c.0 {
            Some(u) => {
                assert(source(cols) =~= source(x).push(u));
                assert(source(cols).drop_last() =~= source(x));
            },
            None => {
                assert(source(cols) =~= source(x));
            },
        }
        match c.1 {
            Some(v) => {
                assert(target(cols) =~= target(x).push(v));
                assert(target(cols).drop_last() =~= target(x));
            },
            None => {
                assert(target(cols) =~= target(x));
            },
        }
    }
}

proof fn lemma_drop_spaces_prefix(a: Seq<char>, t: Seq<char>, b: Seq<char>)
    ensures
        distance(a + t, b) == distance(without_spaces(a) + t, b),
    decreases a.len(),
{
    if a.len() > 0 {
        let a1 = a.drop_last();
        let c = a.last();
        let t1 = seq![c] + t;
        assert(a + t =~= a1 + t1);
        lemma_drop_spaces_prefix(a1, t1, b);
        if c == ' ' {
            assert(a1 + t1 =~= (a1 + t).insert(a1.len() as int, ' '));
            law_space_insertion_is_free(b, a1 + t, a1.len() as int);
            lemma_drop_spaces_prefix(a1, t, b);
            assert(without_spaces(a) == without_spaces(a1));
        } else {
            assert(without_spaces(a) == without_spaces(a1).push(c));
            assert(without_spaces(a1) + t1 =~= without_spaces(a) + t);
        }
    }
}

/// Two texts are at distance zero exactly when they agree once their
/// spaces are left out.
pub proof fn law_zero_distance_iff_same_without_spaces(a: Seq<char>, b: Seq<char>)
    ensures
        distance(a, b) == 0 <==> without_spaces(a) == without_spaces(b),
{
    let e = Seq::<char>::empty();
    assert(a + e =~= a);
    assert(b + e =~= b);
    assert(without_spaces(a) + e =~= without_spaces(a));
    assert(without_spaces(b) + e =~= without_spaces(b));
    if distance(a, b) == 0 {
        law_alignment_spells_inputs(a, b);
        law_alignment_cost_is_distance(a, b);
        lemma_free_alignment_agrees(alignment(a, b));
    }
    if without_spaces(a) == without_spaces(b) {
        lemma_drop_spaces_prefix(a, e, b);
        law_distance_symmetric(without_spaces(a), b);
        lemma_drop_spaces_prefix(b, e, without_spaces(a));
        law_distance_to_self_is_zero(without_spaces(a));
    }
}

/// Leaving every space out of both strings leaves the distance as it was.
pub proof fn law_spaces_removed_keep_distance(a: Seq<char>, b: Seq<char>)
    ensures
        distance(without_spaces(a), without_spaces(b)) == distance(a, b),
{
    let e = Seq::<char>::empty();
    assert(a + e =~= a);
    assert(b + e =~= b);
    assert(without_spaces(a) + e =~= without_spaces(a));
    assert(without_spaces(b) + e =~= without_spaces(b));
    lemma_drop_spaces_prefix(a, e, b);
    law_distance_symmetric(without_spaces(a), b);
    lemma_drop_spaces_prefix(b, e, without_spaces(a));
    law_distance_symmetric(without_spaces(b), without_spaces(a));
}

/// Fills the table of distances between all prefixes of `a` and `b`.
fn fill_table(a: &Vec<char>, b: &Vec<char>) -> (dp: Vec<Vec<usize>>)
    requires
        a@.len() < usize::MAX,
        b@.len() < usize::MAX,
    ensures
        dp@.len() == a@.len() + 1,
        forall|i: int| 0 <= i <= a@.len() ==> #[trigger] dp@[i]@.len() == b@.len() + 1,
        forall|i: int, j: int|
            0 <= i <= a@.len() && 0 <= j <= b@.len() ==> #[trigger] dp@[i]@[j] == dist(
                a@,
                b@,
                i as nat,
                j as nat,
            ),
{
    let m: usize = a.len();
    let n: usize = b.len();
    let mut dp: Vec<Vec<usize>> = Vec::new();

    let mut row0: Vec<usize> = Vec::new();
    row0.push(0);
    for j in 1..n + 1
        invariant
            n == b@.len(),
            n < usize::MAX,
            row0@.len() == j,
            forall|k: int| 0 <= k < j ==> #[trigger] row0@[k] == dist(a@, b@, 0, k as nat),
    {
        proof {
            lemma_dist_bound(a@, b@, 0, (j - 1) as nat);
        }
        let v: usize = row0[j - 1] + ins_cost(b[j - 1]);
        row0.push(v);
    }
    dp.push(row0);

    for i in 1..m + 1
        invariant
            m == a@.len(),
            n == b@.len(),
            m < usize::MAX,
            n < usize::MAX,
            dp@.len() == i,
            forall|k: int| 0 <= k < i ==> #[trigger] dp@[k]@.len() == n + 1,
            forall|k: int, l: int|
                0 <= k < i && 0 <= l <= n ==> #[trigger] dp@[k]@[l] == dist(
                    a@,
                    b@,
                    k as nat,
                    l as nat,
                ),
    {
        let mut row: Vec<usize> = Vec::new();
        proof {
            lemma_dist_bound(a@, b@, (i - 1) as nat, 0);
            assert(dp@[i - 1]@[0] == dist(a@, b@, (i - 1) as nat, 0));
        }
        let first: usize = dp[i - 1][0] + del_cost(a[i - 1]);
        row.push(first);
        for j in 1..n + 1
            invariant
                m == a@.len(),
                n == b@.len(),
                m < usize::MAX,
                n < usize::MAX,
                1 <= i <= m,
                dp@.len() == i,
                forall|k: int| 0 <= k < i ==> #[trigger] dp@[k]@.len() == n + 1,
                forall|k: int, l: int|
                    0 <= k < i && 0 <= l <= n ==> #[trigger] dp@[k]@[l] == dist(
                        a@,
                        b@,
                        k as nat,
                        l as nat,
                    ),
                row@.len() == j,
                forall|l: int| 0 <= l < j ==> #[trigger] row@[l] == dist(a@, b@, i as nat, l as nat),
        {
            proof {
                lemma_dist_bound(a@, b@, (i - 1) as nat, j as nat);
                lemma_dist_bound(a@, b@, i as nat, (j - 1) as nat);
                lemma_dist_bound(a@, b@, (i - 1) as nat, (j - 1) as nat);
                assert(dp@[i - 1]@[j as int] == dist(a@, b@, (i - 1) as nat, j as nat));
                assert(dp@[i - 1]@[j - 1] == dist(a@, b@, (i - 1) as nat, (j - 1) as nat));
            }
            let del: usize = dp[i - 1][j] + del_cost(a[i - 1]);
            let ins: usize = row[j - 1] + ins_cost(b[j - 1]);
            let sub: usize = dp[i - 1][j - 1] + sub_cost(a[i - 1], b[j - 1]);
            let m1: usize = if del <= ins {
                del
            } else {
                ins
            };
            let best: usize = if m1 <= sub {
                m1
            } else {
                sub
            };
            row.push(best);
        }
        dp.push(row);
    }
    dp
}

/// Reverses a vector of characters.
fn reversed(v: &Vec<char>) -> (r: Vec<char>)
    ensures
        r@ == v@.reverse(),
{
    let mut r: Vec<char> = Vec::new();
    let n: usize = v.len();
    for k in 0..n
        invariant
            n == v@.len(),
            r@.len() == k,
            forall|t: int| 0 <= t < k ==> #[trigger] r@[t] == v@[n - 1 - t],
    {
        r.push(v[n - 1 - k]);
    }
    assert(r@ =~= v@.reverse());
    r
}

/// Levenshtein distance with free space insertions and deletions, and the
/// alignment found by tracing back through the table.
///
/// Returns `(aligned_a, aligned_b, distance)`; a gap in either row is a space.
#[verifier::rlimit(50)]
pub fn compare_str(a: &str, b: &str) -> (res: (String, String, usize))
    requires
        a@.len() < usize::MAX,
        b@.len() < usize::MAX,
    ensures
        res.0@ == upper(alignment(a@, b@)),
        res.1@ == lower(alignment(a@, b@)),
        res.2 == distance(a@, b@),
        res.0@.len() == res.1@.len(),
        res.2 == mismatches(res.0@, res.1@),
        res.2 == distance(b@, a@),
        res.2 == distance(without_spaces(a@), without_spaces(b@)),
{
    let a_chars = chars_of(a);
    let b_chars = chars_of(b);
    let m: usize = a_chars.len();
    let n: usize = b_chars.len();
    let dp = fill_table(&a_chars, &b_chars);

    let ghost sa = a_chars@;
    let ghost sb = b_chars@;
    let mut rev_a: Vec<char> = Vec::new();
    let mut rev_b: Vec<char> = Vec::new();
    let ghost mut done: Seq<Column> = seq![];
    let mut i: usize = m;
    let mut j: usize = n;

    while i > 0 || j > 0
        invariant
            sa == a_chars@,
            sb == b_chars@,
            m == sa.len(),
            n == sb.len(),
            m < usize::MAX,
            n < usize::MAX,
            i <= m,
            j <= n,
            dp@.len() == m + 1,
            forall|k: int| 0 <= k <= m ==> #[trigger] dp@[k]@.len() == n + 1,
            forall|k: int, l: int|
                0 <= k <= m && 0 <= l <= n ==> #[trigger] dp@[k]@[l] == dist(
                    sa,
                    sb,
                    k as nat,
                    l as nat,
                ),
            done + backtrace(sa, sb, i as nat, j as nat) == backtrace(sa, sb, m as nat, n as nat),
            rev_a@ == upper(done),
            rev_b@ == lower(done),
        decreases i + j,
    {
        proof {
            law_trace_back_never_stuck(sa, sb, i as nat, j as nat);
            if i > 0 {
                lemma_dist_bound(sa, sb, (i - 1) as nat, j as nat);
            }
            if j > 0 {
                lemma_dist_bound(sa, sb, i as nat, (j - 1) as nat);
            }
            if i > 0 && j > 0 {
                lemma_dist_bound(sa, sb, (i - 1) as nat, (j - 1) as nat);
            }
        }
        let ghost old_done = done;
        if i > 0 && j > 0 && a_chars[i - 1] == b_chars[j - 1] && dp[i][j] == dp[i - 1][j - 1] {
            rev_a.push(a_chars[i - 1]);
            rev_b.push(b_chars[j - 1]);
            proof {
                done = done.push((Some(sa[i - 1]), Some(sb[j - 1])));
                assert(done + backtrace(sa, sb, (i - 1) as nat, (j - 1) as nat) =~= old_done
                    + backtrace(sa, sb, i as nat, j as nat));
                assert(upper(done) =~= upper(old_done).push(sa[i - 1]));
                assert(lower(done) =~= lower(old_done).push(sb[j - 1]));
            }
            i -= 1;
            j -= 1;
        } else {
            let cur: usize = dp[i][j];
            let can_del = i > 0 && cur == dp[i - 1][j] + del_cost(a_chars[i - 1]);
            let can_ins = j > 0 && cur == dp[i][j - 1] + ins_cost(b_chars[j - 1]);
            let can_sub = i > 0 && j > 0 && cur == dp[i - 1][j - 1] + sub_cost(
                a_chars[i - 1],
                b_chars[j - 1],
            );
            if can_del {
                rev_a.push(a_chars[i - 1]);
                rev_b.push(' ');
                proof {
                    done = done.push((Some(sa[i - 1]), None));
                    assert(done + backtrace(sa, sb, (i - 1) as nat, j as nat) =~= old_done
                        + backtrace(sa, sb, i as nat, j as nat));
                    assert(upper(done) =~= upper(old_done).push(sa[i - 1]));
                    assert(lower(done) =~= lower(old_done).push(' '));
                }
                i -= 1;
            } else if can_ins {
                rev_a.push(' ');
                rev_b.push(b_chars[j - 1]);
                proof {
                    done = done.push((None, Some(sb[j - 1])));
                    assert(done + backtrace(sa, sb, i as nat, (j - 1) as nat) =~= old_done
                        + backtrace(sa, sb, i as nat, j as nat));
                    assert(upper(done) =~= upper(old_done).push(' '));
                    assert(lower(done) =~= lower(old_done).push(sb[j - 1]));
                }
                j -= 1;
            } else {
                assert(can_sub);
                rev_a.push(a_chars[i - 1]);
                rev_b.push(b_chars[j - 1]);
                proof {
                    done = done.push((Some(sa[i - 1]), Some(sb[j - 1])));
                    assert(done + backtrace(sa, sb, (i - 1) as nat, (j - 1) as nat) =~= old_done
                        + backtrace(sa, sb, i as nat, j as nat));
                    assert(upper(done) =~= upper(old_done).push(sa[i - 1]));
                    assert(lower(done) =~= lower(old_done).push(sb[j - 1]));
                }
                i -= 1;
                j -= 1;
            }
        }
    }

    proof {
        assert(done =~= backtrace(sa, sb, m as nat, n as nat));
    }
    let aligned_a = reversed(&rev_a);
    let aligned_b = reversed(&rev_b);
    proof {
        assert(aligned_a@ =~= upper(alignment(a@, b@)));
        assert(aligned_b@ =~= lower(alignment(a@, b@)));
    }
    proof {
        law_alignment_cost_is_distance(a@, b@);
        law_cost_is_printed_mismatches(alignment(a@, b@));
        law_distance_symmetric(a@, b@);
        law_spaces_removed_keep_distance(a@, b@);
    }
    (string_of(&aligned_a), string_of(&aligned_b), dp[m][n])
}

} // verus!
