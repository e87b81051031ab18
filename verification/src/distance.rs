//! Levenshtein edit distance between two character sequences: the minimum
//! number of single-character insertions, deletions and substitutions that
//! turn one into the other.

use vstd::prelude::*;

use crate::text::str_chars;

verus! {

/// The smallest of three naturals.
pub open spec fn min3(x: nat, y: nat, z: nat) -> nat {
    if x <= y && x <= z {
        x
    } else if y <= z {
        y
    } else {
        z
    }
}

/// Levenshtein edit distance, defined recursively over the ends of the two
/// sequences.
pub open spec fn edit_dist(a: Seq<char>, b: Seq<char>) -> nat
    decreases a.len(), b.len(),
{
    if a.len() == 0 {
        b.len()
    } else if b.len() == 0 {
        a.len()
    } else {
        let del = edit_dist(a.drop_last(), b) + 1;
        let ins = edit_dist(a, b.drop_last()) + 1;
        let sub = edit_dist(a.drop_last(), b.drop_last()) + if a.last() == b.last() {
            0nat
        } else {
            1nat
        };
        min3(del, ins, sub)
    }
}

/// Deleting the last character of `a` costs at most one extra edit.
proof fn lemma_del_branch(a: Seq<char>, b: Seq<char>)
    requires
        a.len() > 0,
    ensures
        edit_dist(a, b) <= edit_dist(a.drop_last(), b) + 1,
{
    if b.len() == 0 {
        assert(edit_dist(a, b) == a.len());
    }
}

/// Deleting the last character of `b` costs at most one extra edit.
proof fn lemma_ins_branch(a: Seq<char>, b: Seq<char>)
    requires
        b.len() > 0,
    ensures
        edit_dist(a, b) <= edit_dist(a, b.drop_last()) + 1,
{
    if a.len() == 0 {
        assert(edit_dist(a, b) == b.len());
    }
}

/// Replacing the last characters of both sequences costs at most one extra
/// edit, and nothing when those characters agree.
proof fn lemma_sub_branch(a: Seq<char>, b: Seq<char>)
    requires
        a.len() > 0,
        b.len() > 0,
    ensures
        edit_dist(a, b) <= edit_dist(a.drop_last(), b.drop_last()) + if a.last() == b.last() {
            0nat
        } else {
            1nat
        },
{
}

/// The distance never exceeds the longer length: substitute along the shorter
/// sequence and insert or delete the rest.
pub proof fn lemma_edit_dist_le_max(a: Seq<char>, b: Seq<char>)
    ensures
        edit_dist(a, b) <= a.len() || edit_dist(a, b) <= b.len(),
        edit_dist(a, b) <= a.len() + b.len(),
    decreases a.len(), b.len(),
{
    if a.len() == 0 || b.len() == 0 {
    } else {
        lemma_edit_dist_le_max(a.drop_last(), b.drop_last());
    }
}

/// Every edit inserts or deletes at most one character, so the distance is at
/// least the difference in lengths.
pub proof fn lemma_edit_dist_ge_diff(a: Seq<char>, b: Seq<char>)
    ensures
        edit_dist(a, b) + a.len() >= b.len(),
        edit_dist(a, b) + b.len() >= a.len(),
    decreases a.len(), b.len(),
{
    if a.len() == 0 || b.len() == 0 {
    } else {
        lemma_edit_dist_ge_diff(a.drop_last(), b);
        lemma_edit_dist_ge_diff(a, b.drop_last());
        lemma_edit_dist_ge_diff(a.drop_last(), b.drop_last());
    }
}

/// Edit distance is symmetric: edits from `a` to `b` invert to edits from `b`
/// to `a`.
pub proof fn lemma_edit_dist_sym(a: Seq<char>, b: Seq<char>)
    ensures
        edit_dist(a, b) == edit_dist(b, a),
    decreases a.len(), b.len(),
{
    if a.len() == 0 || b.len() == 0 {
    } else {
        lemma_edit_dist_sym(a.drop_last(), b);
        lemma_edit_dist_sym(a, b.drop_last());
        lemma_edit_dist_sym(a.drop_last(), b.drop_last());
    }
}

/// The distance is zero exactly when the two sequences are equal.
pub proof fn lemma_edit_dist_zero(a: Seq<char>, b: Seq<char>)
    ensures
        edit_dist(a, b) == 0 <==> a == b,
    decreases a.len(), b.len(),
{
    if a.len() == 0 {
        if edit_dist(a, b) == 0 {
            assert(a =~= b);
        }
    } else if b.len() == 0 {
    } else {
        lemma_edit_dist_zero(a.drop_last(), b.drop_last());
        if edit_dist(a, b) == 0 {
            assert(a.drop_last() == b.drop_last() && a.last() == b.last());
            assert(a =~= a.drop_last().push(a.last()));
            assert(b =~= b.drop_last().push(b.last()));
        }
        if a == b {
            assert(a.drop_last() == b.drop_last());
        }
    }
}

/// Dropping the last character of the second sequence lowers the distance by
/// at most one.
proof fn lemma_drop_second_close(x: Seq<char>, y: Seq<char>)
    requires
        y.len() > 0,
    ensures
        edit_dist(x, y.drop_last()) <= edit_dist(x, y) + 1,
    decreases x.len() + y.len(),
{
    if x.len() == 0 {
    } else {
        let d = edit_dist(x, y);
        if d == edit_dist(x.drop_last(), y) + 1 {
            lemma_drop_second_close(x.drop_last(), y);
            lemma_del_branch(x, y.drop_last());
        } else if d == edit_dist(x, y.drop_last()) + 1 {
        } else {
            lemma_del_branch(x, y.drop_last());
        }
    }
}

/// Dropping the last character of the first sequence lowers the distance by
/// at most one.
proof fn lemma_drop_first_close(x: Seq<char>, y: Seq<char>)
    requires
        x.len() > 0,
    ensures
        edit_dist(x.drop_last(), y) <= edit_dist(x, y) + 1,
{
    lemma_drop_second_close(y, x);
    lemma_edit_dist_sym(x, y);
    lemma_edit_dist_sym(x.drop_last(), y);
}

/// When the last characters agree, the distance is exactly the distance of
/// the two shortened sequences.
pub proof fn lemma_edit_dist_eq_last(a: Seq<char>, b: Seq<char>)
    requires
        a.len() > 0,
        b.len() > 0,
        a.last() == b.last(),
    ensures
        edit_dist(a, b) == edit_dist(a.drop_last(), b.drop_last()),
{
    lemma_sub_branch(a, b);
    lemma_drop_second_close(a.drop_last(), b);
    lemma_drop_first_close(a, b.drop_last());
}

/// One cell of the dynamic-programming recurrence over prefixes.
proof fn lemma_dp_cell(a: Seq<char>, b: Seq<char>, i: int, j: int)
    requires
        1 <= i <= a.len(),
        1 <= j <= b.len(),
    ensures
        edit_dist(a.take(i), b.take(j)) == if a[i - 1] == b[j - 1] {
            edit_dist(a.take(i - 1), b.take(j - 1))
        } else {
            min3(
                edit_dist(a.take(i - 1), b.take(j)),
                edit_dist(a.take(i), b.take(j - 1)),
                edit_dist(a.take(i - 1), b.take(j - 1)),
            ) + 1
        },
{
    let ai = a.take(i);
    let bj = b.take(j);
    assert(ai.drop_last() =~= a.take(i - 1));
    assert(bj.drop_last() =~= b.take(j - 1));
    if a[i - 1] == b[j - 1] {
        lemma_edit_dist_eq_last(ai, bj);
    }
}

/// The triangle inequality: editing `a` into `b` and then `b` into `c` is one
/// way of editing `a` into `c`.
pub proof fn lemma_edit_dist_triangle(a: Seq<char>, b: Seq<char>, c: Seq<char>)
    ensures
        edit_dist(a, c) <= edit_dist(a, b) + edit_dist(b, c),
    decreases a.len() + b.len() + c.len(),
{
    if a.len() == 0 {
        lemma_edit_dist_ge_diff(b, c);
    } else if c.len() == 0 {
        lemma_edit_dist_ge_diff(b, a);
        lemma_edit_dist_sym(a, b);
    } else if b.len() == 0 {
        lemma_edit_dist_le_max(a, c);
    } else {
        let ab = edit_dist(a, b);
        let bc = edit_dist(b, c);
        if ab == edit_dist(a.drop_last(), b) + 1 {
            lemma_edit_dist_triangle(a.drop_last(), b, c);
            lemma_del_branch(a, c);
        } else if bc == edit_dist(b, c.drop_last()) + 1 {
            lemma_edit_dist_triangle(a, b, c.drop_last());
            lemma_ins_branch(a, c);
        } else if ab == edit_dist(a, b.drop_last()) + 1 {
            if bc == edit_dist(b.drop_last(), c) + 1 {
                lemma_edit_dist_triangle(a, b.drop_last(), c);
            } else {
                lemma_edit_dist_triangle(a, b.drop_last(), c.drop_last());
                lemma_ins_branch(a, c);
            }
        } else {
            if bc == edit_dist(b.drop_last(), c) + 1 {
                lemma_edit_dist_triangle(a.drop_last(), b.drop_last(), c);
                lemma_del_branch(a, c);
            } else {
                lemma_edit_dist_triangle(a.drop_last(), b.drop_last(), c.drop_last());
                lemma_sub_branch(a, c);
            }
        }
    }
}

/// Computes the Levenshtein edit distance between two strings by filling the
/// classic dynamic-programming table one row at a time.
pub fn levenshtein(a: &str, b: &str) -> (d: usize)
    ensures
        d == edit_dist(a@, b@),
{
    let av = str_chars(a);
    let bv = str_chars(b);
    levenshtein_chars(&av, &bv)
}

/// Levenshtein edit distance over character vectors.
pub fn levenshtein_chars(a: &Vec<char>, b: &Vec<char>) -> (d: usize)
    ensures
        d == edit_dist(a@, b@),
{
    let n = a.len();
    let m = b.len();
    // prev[k] holds the distance between the first i characters of a and the
    // first k characters of b; initially i == 0.
    let mut prev: Vec<usize> = Vec::new();
    prev.push(0);
    let mut j: usize = 0;
    while j < m
        invariant
            j <= m,
            m == b@.len(),
            prev@.len() == j + 1,
            forall|k: int| 0 <= k <= j ==> prev@[k] == edit_dist(a@.take(0), b@.take(k)),
        decreases m - j,
    {
        j = j + 1;
        prev.push(j);
    }
    let mut i: usize = 0;
    while i < n
        invariant
            i <= n,
            n == a@.len(),
            m == b@.len(),
            prev@.len() == m + 1,
            forall|k: int| 0 <= k <= m ==> prev@[k] == edit_dist(a@.take(i as int), b@.take(k)),
        decreases n - i,
    {
        let mut cur: Vec<usize> = Vec::new();
        cur.push(i + 1);
        let mut j: usize = 0;
        while j < m
            invariant
                j <= m,
                i < n,
                n == a@.len(),
                m == b@.len(),
                prev@.len() == m + 1,
                cur@.len() == j + 1,
                forall|k: int| 0 <= k <= m ==> prev@[k] == edit_dist(a@.take(i as int), b@.take(k)),
                forall|k: int| 0 <= k <= j ==> cur@[k] == edit_dist(a@.take(i + 1), b@.take(k)),
            decreases m - j,
        {
            let r: usize;
            if a[i] == b[j] {
                r = prev[j];
            } else {
                let t1 = if prev[j + 1] < cur[j] {
                    prev[j + 1]
                } else {
                    cur[j]
                };
                let t = if t1 < prev[j] {
                    t1
                } else {
                    prev[j]
                };
                proof {
                    lemma_edit_dist_le_max(a@.take(i as int), b@.take(j as int));
                }
                r = t + 1;
            }
            proof {
                lemma_dp_cell(a@, b@, i + 1, j + 1);
            }
            cur.push(r);
            j = j + 1;
        }
        prev = cur;
        i = i + 1;
    }
    proof {
        assert(a@.take(n as int) =~= a@);
        assert(b@.take(m as int) =~= b@);
    }
    prev[m]
}

} // verus!
