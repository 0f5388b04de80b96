//! Lexicographic ordering of strings, and sorting of the collected values.

use vstd::prelude::*;

verus! {

use vstd::relations::{sorted_by, total_ordering};
use vstd::string::StrSliceExecFns;

/// Lexicographic order on character sequences, comparing code points.
/// For valid UTF-8 this coincides with Rust's byte-wise ordering of `str`.
pub open spec fn lex_leq(a: Seq<char>, b: Seq<char>) -> bool
    decreases a.len(),
{
    if a.len() == 0 {
        true
    } else if b.len() == 0 {
        false
    } else if (a[0] as int) < (b[0] as int) {
        true
    } else if (a[0] as int) > (b[0] as int) {
        false
    } else {
        lex_leq(a.drop_first(), b.drop_first())
    }
}

/// `lex_leq` as a relation value, for use with `sorted_by`.
pub open spec fn lex_leq_fn() -> spec_fn(Seq<char>, Seq<char>) -> bool {
    |a: Seq<char>, b: Seq<char>| lex_leq(a, b)
}

pub proof fn lemma_lex_leq_total(a: Seq<char>, b: Seq<char>)
    ensures
        lex_leq(a, b) || lex_leq(b, a),
    decreases a.len(),
{
    if a.len() > 0 && b.len() > 0 && a[0] == b[0] {
        lemma_lex_leq_total(a.drop_first(), b.drop_first());
    }
}

pub proof fn lemma_lex_leq_antisymmetric(a: Seq<char>, b: Seq<char>)
    requires
        lex_leq(a, b),
        lex_leq(b, a),
    ensures
        a == b,
    decreases a.len(),
{
    if a.len() > 0 && b.len() > 0 {
        lemma_lex_leq_antisymmetric(a.drop_first(), b.drop_first());
        assert(a[0] == b[0]);
        assert(a.len() == b.len()) by {
            assert(a.drop_first().len() == b.drop_first().len());
        }
        assert forall|i: int| 0 <= i < a.len() implies a[i] == b[i] by {
            if i > 0 {
                assert(a.drop_first()[i - 1] == b.drop_first()[i - 1]);
            }
        }
        assert(a =~= b);
    }
}

pub proof fn lemma_lex_leq_transitive(a: Seq<char>, b: Seq<char>, c: Seq<char>)
    requires
        lex_leq(a, b),
        lex_leq(b, c),
    ensures
        lex_leq(a, c),
    decreases a.len(),
{
    if a.len() > 0 && b.len() > 0 && c.len() > 0 && a[0] == b[0] && b[0] == c[0] {
        lemma_lex_leq_transitive(a.drop_first(), b.drop_first(), c.drop_first());
    }
}

/// `lex_leq` is a total ordering, as `vstd::relations` defines one.
pub proof fn lemma_lex_leq_total_ordering()
    ensures
        total_ordering(lex_leq_fn()),
{
    let leq = lex_leq_fn();
    assert forall|x: Seq<char>| #[trigger] leq(x, x) by {
        lemma_lex_leq_total(x, x);
    }
    assert forall|x: Seq<char>, y: Seq<char>| #[trigger] leq(x, y) && #[trigger] leq(y, x)
        implies x == y by {
        lemma_lex_leq_antisymmetric(x, y);
    }
    assert forall|x: Seq<char>, y: Seq<char>, z: Seq<char>|
        #[trigger] leq(x, y) && #[trigger] leq(y, z) implies leq(x, z) by {
        lemma_lex_leq_transitive(x, y, z);
    }
    assert forall|x: Seq<char>, y: Seq<char>| #[trigger] leq(x, y) || #[trigger] leq(y, x) by {
        lemma_lex_leq_total(x, y);
    }
}

/// Dropping an equal prefix of both sequences does not change how they compare.
proof fn lemma_lex_leq_skip(a: Seq<char>, b: Seq<char>, i: int)
    requires
        0 <= i <= a.len(),
        i <= b.len(),
        a.subrange(0, i) == b.subrange(0, i),
    ensures
        lex_leq(a, b) == lex_leq(a.skip(i), b.skip(i)),
    decreases i,
{
    if i == 0 {
        assert(a.skip(0) =~= a);
        assert(b.skip(0) =~= b);
    } else {
        assert(a[0] == b[0]) by {
            assert(a.subrange(0, i)[0] == a[0]);
            assert(b.subrange(0, i)[0] == b[0]);
            assert(a.subrange(0, i)[0] == b.subrange(0, i)[0]);
        }
        assert(a.len() > 0 && b.len() > 0);
        assert(a.drop_first().subrange(0, i - 1) == b.drop_first().subrange(0, i - 1)) by {
            assert(a.drop_first().subrange(0, i - 1) =~= a.subrange(0, i).drop_first());
            assert(b.drop_first().subrange(0, i - 1) =~= b.subrange(0, i).drop_first());
        }
        lemma_lex_leq_skip(a.drop_first(), b.drop_first(), i - 1);
        assert(a.drop_first().skip(i - 1) =~= a.skip(i));
        assert(b.drop_first().skip(i - 1) =~= b.skip(i));
    }
}

/// The character sequences of a sequence of strings.
pub open spec fn views_of(s: Seq<String>) -> Seq<Seq<char>> {
    Seq::new(s.len(), |i: int| s[i]@)
}

/// Inserting into a sequence adds the element to its multiset.
proof fn lemma_to_multiset_insert<A>(s: Seq<A>, pos: int, v: A)
    requires
        0 <= pos <= s.len(),
    ensures
        s.insert(pos, v).to_multiset() == s.to_multiset().insert(v),
{
    broadcast use vstd::seq_lib::group_to_multiset_ensures;
    broadcast use vstd::multiset::group_multiset_axioms;

    let s1 = s.subrange(0, pos);
    let s2 = s.subrange(pos, s.len() as int);
    assert(s =~= s1 + s2);
    vstd::seq_lib::lemma_multiset_commutative(s1, s2);
    vstd::seq_lib::lemma_multiset_commutative(s1.push(v), s2);
    assert(s1.push(v).to_multiset() =~= s1.to_multiset().insert(v));
    assert(s.insert(pos, v).to_multiset() =~= s.to_multiset().insert(v));
}

/// Inserting a string commutes with taking the character sequences.
proof fn lemma_views_of_insert(s: Seq<String>, pos: int, v: String)
    requires
        0 <= pos <= s.len(),
    ensures
        views_of(s.insert(pos, v)) == views_of(s).insert(pos, v@),
{
    s.insert_ensures(pos, v);
    views_of(s).insert_ensures(pos, v@);
    assert(views_of(s.insert(pos, v)) =~= views_of(s).insert(pos, v@));
}

/// A sequence without duplicates carries each of its elements once.
proof fn lemma_nodup_multiset_count(s: Seq<Seq<char>>)
    requires
        s.no_duplicates(),
    ensures
        forall|x: Seq<char>|
            #[trigger] s.to_multiset().count(x) == if s.to_set().contains(x) {
                1nat
            } else {
                0nat
            },
{
    broadcast use vstd::seq_lib::group_to_multiset_ensures;
    broadcast use vstd::multiset::group_multiset_axioms;

    s.lemma_multiset_has_no_duplicates();
}

/// Two duplicate-free sequences, both sorted lexicographically, that hold the
/// same set of values are the same sequence. This makes the rendered output a
/// function of the collected value set alone, however the rows were scanned.
pub proof fn lemma_sorted_unique_values(a: Seq<Seq<char>>, b: Seq<Seq<char>>)
    requires
        sorted_by(a, lex_leq_fn()),
        a.no_duplicates(),
        sorted_by(b, lex_leq_fn()),
        b.no_duplicates(),
        a.to_set() == b.to_set(),
    ensures
        a == b,
{
    broadcast use vstd::multiset::group_multiset_axioms;

    lemma_nodup_multiset_count(a);
    lemma_nodup_multiset_count(b);
    assert(a.to_multiset() =~= b.to_multiset());
    lemma_lex_leq_total_ordering();
    vstd::seq_lib::lemma_sorted_unique(a, b, lex_leq_fn());
}

/// First position of `out` whose value is not `lex_leq` the probe, i.e. the
/// position where the probe belongs in the sorted sequence.
fn lower_bound(out: &Vec<String>, v: &String) -> (pos: usize)
    requires
        sorted_by(views_of(out@), lex_leq_fn()),
    ensures
        pos <= out@.len(),
        forall|j: int| 0 <= j < pos ==> lex_leq(#[trigger] views_of(out@)[j], v@),
        pos < out@.len() ==> lex_leq(v@, views_of(out@)[pos as int]),
{
    let mut pos: usize = 0;
    while pos < out.len()
        invariant
            pos <= out@.len(),
            forall|j: int| 0 <= j < pos ==> lex_leq(#[trigger] views_of(out@)[j], v@),
        decreases out@.len() - pos,
    {
        if !str_lex_leq(out[pos].as_str(), v.as_str()) {
            proof {
                lemma_lex_leq_total(views_of(out@)[pos as int], v@);
            }
            return pos;
        }
        pos = pos + 1;
    }
    pos
}

/// Sorts the collected unique values lexicographically. The name follows the
/// collection pass, whose result this function orders for output: sorting does
/// not add, drop or repeat a value.
pub fn sort_hashset(values: Vec<String>) -> (r: Vec<String>)
    ensures
        sorted_by(views_of(r@), lex_leq_fn()),
        views_of(r@).to_multiset() == views_of(values@).to_multiset(),
{
    let mut out: Vec<String> = Vec::new();
    let mut k: usize = 0;
    assert(views_of(out@).to_multiset() =~= views_of(values@).take(0).to_multiset()) by {
        assert(views_of(out@) =~= Seq::<Seq<char>>::empty());
        assert(views_of(values@).take(0) =~= Seq::<Seq<char>>::empty());
    }
    while k < values.len()
        invariant
            k <= values@.len(),
            sorted_by(views_of(out@), lex_leq_fn()),
            views_of(out@).to_multiset() == views_of(values@).take(k as int).to_multiset(),
        decreases values@.len() - k,
    {
        let ghost pre = out@;
        let v = values[k].clone();
        let pos = lower_bound(&out, &v);
        out.insert(pos, v);
        proof {
            broadcast use vstd::seq_lib::group_to_multiset_ensures;

            lemma_views_of_insert(pre, pos as int, v);
            lemma_to_multiset_insert(views_of(pre), pos as int, v@);
            assert(views_of(values@).take(k + 1) =~= views_of(values@).take(k as int).push(
                values@[k as int]@,
            ));
            assert(v@ == values@[k as int]@);
            assert(views_of(out@).to_multiset() == views_of(values@).take(k + 1).to_multiset());
            // the insertion keeps the sequence sorted
            let leq = lex_leq_fn();
            views_of(pre).insert_ensures(pos as int, v@);
            let post = views_of(out@);
            assert forall|m: int| pos <= m < views_of(pre).len() implies lex_leq(
                v@,
                #[trigger] views_of(pre)[m],
            ) by {
                if m > pos {
                    assert(leq(views_of(pre)[pos as int], views_of(pre)[m]));
                    lemma_lex_leq_transitive(v@, views_of(pre)[pos as int], views_of(pre)[m]);
                }
            }
            assert forall|i: int, j: int| 0 <= i < j < post.len() implies #[trigger] leq(
                post[i],
                post[j],
            ) by {
                if j < pos {
                    assert(leq(views_of(pre)[i], views_of(pre)[j]));
                } else if j == pos {
                    assert(leq(views_of(pre)[i], v@));
                } else if i < pos {
                    // i before the insertion point, j after it
                    lemma_lex_leq_transitive(views_of(pre)[i], v@, views_of(pre)[j - 1]);
                } else if i == pos {
                    assert(lex_leq(v@, views_of(pre)[j - 1]));
                } else {
                    assert(leq(views_of(pre)[i - 1], views_of(pre)[j - 1]));
                }
            }
        }
        k = k + 1;
    }
    proof {
        assert(views_of(values@).take(k as int) =~= views_of(values@));
    }
    out
}

/// Decides `lex_leq` on two string slices.
pub fn str_lex_leq(a: &str, b: &str) -> (r: bool)
    ensures
        r == lex_leq(a@, b@),
{
    let a_len: usize = a.unicode_len();
    let b_len: usize = b.unicode_len();
    let mut i: usize = 0;
    loop
        invariant
            a_len == a@.len(),
            b_len == b@.len(),
            i <= a_len,
            i <= b_len,
            a@.subrange(0, i as int) == b@.subrange(0, i as int),
        decreases a_len - i,
    {
        proof {
            lemma_lex_leq_skip(a@, b@, i as int);
        }
        if i >= a_len {
            assert(a@.skip(i as int).len() == 0);
            return true;
        }
        if i >= b_len {
            assert(b@.skip(i as int).len() == 0 && a@.skip(i as int).len() > 0);
            return false;
        }
        let ca = a.get_char(i);
        let cb = b.get_char(i);
        assert(a@.skip(i as int)[0] == a@[i as int]);
        assert(b@.skip(i as int)[0] == b@[i as int]);
        if (ca as u32) < (cb as u32) {
            return true;
        }
        if (ca as u32) > (cb as u32) {
            return false;
        }
        assert(a@.subrange(0, i + 1 as int) == b@.subrange(0, i + 1 as int)) by {
            assert(a@.subrange(0, i + 1 as int) =~= a@.subrange(0, i as int).push(a@[i as int]));
            assert(b@.subrange(0, i + 1 as int) =~= b@.subrange(0, i as int).push(b@[i as int]));
        }
        i = i + 1;
    }
}

} // verus!
